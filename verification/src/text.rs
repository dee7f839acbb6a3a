//! Text as it comes from command line tools: lines, patterns, tokens and hexadecimal words.
use vstd::arithmetic::power2::lemma2_to64;
use vstd::arithmetic::power2::lemma_pow2_adds;
use vstd::arithmetic::power2::lemma_pow2_strictly_increases;
use vstd::arithmetic::power2::pow2;
use vstd::prelude::*;
use vstd::utf8::decode_utf8;
use vstd::utf8::encode_scalar;
use vstd::utf8::encode_utf8;
use vstd::utf8::valid_utf8;

verus! {

/// Bytes read as text, with a replacement character for what is not UTF-8.
pub uninterp spec fn lossy_text_of(bytes: Seq<u8>) -> Seq<char>;

/// `String::from_utf8_lossy`: the text, named [`lossy_text_of`], depends on the bytes alone;
/// bytes in UTF-8 are decoded as they are.
#[verifier::external_body]
pub(crate) fn lossy_text(bytes: &[u8]) -> (text: String)
    ensures
        text@ == lossy_text_of(bytes@),
        valid_utf8(bytes@) ==> text@ == decode_utf8(bytes@),
{
    String::from_utf8_lossy(bytes).into_owned()
}

/// `String::push` appends one character.
pub assume_specification[ String::push ](string: &mut String, ch: char)
    ensures
        final(string)@ == old(string)@.push(ch),
;

/// The characters of a string.
pub fn chars_of(text: &str) -> (chars: Vec<char>)
    ensures
        chars@ == text@,
{
    let mut chars: Vec<char> = Vec::new();
    for c in it: text.chars()
        invariant
            it.seq() == text@,
            chars@ == text@.take(it.index()),
    {
        chars.push(c);
        assert(text@.take(it.index() + 1) =~= text@.take(it.index()).push(c));
    }
    assert(text@.take(text@.len() as int) =~= text@);
    chars
}

/// The string with these characters.
pub fn string_of(chars: &[char]) -> (text: String)
    ensures
        text@ == chars@,
{
    let mut text = String::new();
    assert(chars@.take(0) =~= Seq::<char>::empty());
    for i in 0..chars.len()
        invariant
            text@ == chars@.take(i as int),
    {
        assert(chars@.take(i + 1) =~= chars@.take(i as int).push(chars@[i as int]));
        text.push(chars[i]);
    }
    assert(chars@.take(chars@.len() as int) =~= chars@);
    text
}

/// Appends a text to a string.
pub fn push_text(string: &mut String, text: &str)
    ensures
        final(string)@ == old(string)@ + text@,
{
    let chars = chars_of(text);
    let ghost start = string@;
    assert(start + text@.take(0) =~= start);
    for i in 0..chars.len()
        invariant
            chars@ == text@,
            string@ == start + text@.take(i as int),
    {
        assert(text@.take(i + 1) =~= text@.take(i as int).push(text@[i as int]));
        string.push(chars[i]);
        assert(string@ =~= start + text@.take(i + 1));
    }
    assert(text@.take(text@.len() as int) =~= text@);
}

/// The concatenation of two texts.
pub fn joined(first: &str, second: &str) -> (text: String)
    ensures
        text@ == first@ + second@,
{
    let mut text = first.to_owned();
    push_text(&mut text, second);
    text
}

/// The character of a decimal digit.
pub open spec fn decimal_digit_of(digit: nat) -> char {
    ('0' as u32 + digit) as char
}

/// A number in decimal, without leading zeros.
pub open spec fn decimal_of(value: nat) -> Seq<char>
    decreases value,
{
    if value < 10 {
        seq![decimal_digit_of(value)]
    } else {
        decimal_of(value / 10).push(decimal_digit_of(value % 10))
    }
}

/// The character of a decimal digit.
fn decimal_digit(digit: u8) -> (c: char)
    requires
        digit < 10,
    ensures
        c == decimal_digit_of(digit as nat),
{
    (0x30 + digit) as char
}

/// Appends a number in decimal to a string.
pub fn push_decimal(string: &mut String, value: u128)
    ensures
        final(string)@ == old(string)@ + decimal_of(value as nat),
    decreases value,
{
    let ghost start = string@;
    let digit = decimal_digit((value % 10) as u8);
    if value >= 10 {
        push_decimal(string, value / 10);
    }
    string.push(digit);
    assert(string@ =~= start + decimal_of(value as nat));
}

/// How many characters stand before the first one that is a `stop`.
pub open spec fn span(text: Seq<char>, stop: spec_fn(char) -> bool) -> int
    decreases text.len(),
{
    if text.len() == 0 || stop(text[0]) {
        0
    } else {
        1 + span(text.skip(1), stop)
    }
}

/// A span ends at a `stop` or at the end of the text.
pub proof fn lemma_span(text: Seq<char>, stop: spec_fn(char) -> bool)
    ensures
        0 <= span(text, stop) <= text.len(),
        span(text, stop) < text.len() ==> stop(text[span(text, stop)]),
        forall|i: int| 0 <= i < span(text, stop) ==> !stop(#[trigger] text[i]),
    decreases text.len(),
{
    if text.len() > 0 && !stop(text[0]) {
        lemma_span(text.skip(1), stop);
        assert forall|i: int| 0 <= i < span(text, stop) implies !stop(#[trigger] text[i]) by {
            if i > 0 {
                assert(text.skip(1)[i - 1] == text[i]);
            }
        }
    }
}

/// The span is known by its end.
pub proof fn lemma_span_is(text: Seq<char>, stop: spec_fn(char) -> bool, end: int)
    requires
        0 <= end <= text.len(),
        end < text.len() ==> stop(text[end]),
        forall|i: int| 0 <= i < end ==> !stop(#[trigger] text[i]),
    ensures
        span(text, stop) == end,
{
    lemma_span(text, stop);
    let found = span(text, stop);
    if found < end {
        assert(!stop(text[found]));
    }
    if end < found {
        assert(!stop(text[end]));
    }
}

/// Ends a line.
pub open spec fn line_feed() -> spec_fn(char) -> bool {
    |c: char| c == '\n'
}

/// The lines of a text: what stands before, between and behind its line feeds. A carriage return
/// before a line feed is white space at the end of its line.
pub open spec fn lines(text: Seq<char>) -> Seq<Seq<char>>
    decreases text.len(),
{
    let end = span(text, line_feed());
    if end < text.len() {
        proof {
            lemma_span(text, line_feed());
        }
        seq![text.take(end)] + lines(text.skip(end + 1))
    } else {
        seq![text]
    }
}

/// What the pieces of a text are.
pub open spec fn pieces(parts: Seq<Vec<char>>) -> Seq<Seq<char>> {
    Seq::new(parts.len(), |i: int| parts[i]@)
}

/// Copies the characters from `from` up to `to`.
fn copy_range(text: &[char], from: usize, to: usize) -> (part: Vec<char>)
    requires
        from <= to <= text@.len(),
    ensures
        part@ == text@.subrange(from as int, to as int),
{
    let mut part: Vec<char> = Vec::new();
    part.extend_from_slice(&text[from..to]);
    assert(part@ =~= text@.subrange(from as int, to as int));
    part
}

/// Splits a text into its lines.
pub fn split_lines(text: &[char]) -> (parts: Vec<Vec<char>>)
    ensures
        pieces(parts@) == lines(text@),
{
    let mut parts: Vec<Vec<char>> = Vec::new();
    let mut start: usize = 0;
    let mut at: usize = 0;
    let len: usize = text.len();
    assert(text@.skip(0) =~= text@);
    assert(pieces(parts@) + lines(text@.skip(0)) =~= lines(text@));
    while at < len
        invariant
            len == text@.len(),
            start <= at <= len,
            pieces(parts@) + lines(text@.skip(start as int)) == lines(text@),
            forall|i: int| start <= i < at ==> #[trigger] text@[i] != '\n',
        decreases len - at,
    {
        if text[at] == '\n' {
            let ghost rest = text@.skip(start as int);
            let ghost before = pieces(parts@);
            let part = copy_range(text, start, at);
            parts.push(part);
            proof {
                let end = at - start;
                lemma_span_is(rest, line_feed(), end);
                assert(rest.take(end) =~= part@);
                assert(rest.skip(end + 1) =~= text@.skip(at + 1));
                assert(pieces(parts@) =~= before.push(part@));
                assert(pieces(parts@) + lines(text@.skip(at + 1)) =~= before + lines(rest));
            }
            start = at + 1;
        }
        at = at + 1;
    }
    let ghost rest = text@.skip(start as int);
    let ghost before = pieces(parts@);
    let part = copy_range(text, start, len);
    parts.push(part);
    proof {
        lemma_span_is(rest, line_feed(), len - start);
        assert(rest =~= part@);
        assert(pieces(parts@) =~= before + seq![rest]);
    }
    parts
}

/// The pattern stands at this place of the text.
pub open spec fn occurs_at(text: Seq<char>, pattern: Seq<char>, at: int) -> bool {
    0 <= at && at + pattern.len() <= text.len() && text.subrange(at, at + pattern.len())
        == pattern
}

/// The pattern stands at this place of the text, and at no place before it.
pub open spec fn first_at(text: Seq<char>, pattern: Seq<char>, at: int) -> bool {
    occurs_at(text, pattern, at) && forall|i: int| 0 <= i < at ==> !occurs_at(text, pattern, i)
}

/// The first place at which the pattern stands in the text, if it does.
pub open spec fn find_in(text: Seq<char>, pattern: Seq<char>) -> Option<int> {
    if exists|at: int| first_at(text, pattern, at) {
        Some(choose|at: int| first_at(text, pattern, at))
    } else {
        None
    }
}

/// Finds the first place at which the pattern stands in the text.
pub fn find(text: &[char], pattern: &[char]) -> (at: Option<usize>)
    ensures
        match at {
            Some(at) => find_in(text@, pattern@) == Some(at as int) && first_at(
                text@,
                pattern@,
                at as int,
            ),
            None => find_in(text@, pattern@) is None && forall|i: int|
                !occurs_at(text@, pattern@, i),
        },
{
    let len: usize = text.len();
    let mut at: usize = 0;
    while pattern.len() <= len - at
        invariant
            len == text@.len(),
            at <= len,
            forall|i: int| 0 <= i < at ==> !occurs_at(text@, pattern@, i),
        decreases len - at,
    {
        let mut matched: usize = 0;
        while matched < pattern.len() && text[at + matched] == pattern[matched]
            invariant
                len == text@.len(),
                at + pattern@.len() <= len,
                matched <= pattern@.len(),
                forall|j: int| 0 <= j < matched ==> text@[at + j] == pattern@[j],
            decreases pattern@.len() - matched,
        {
            matched = matched + 1;
        }
        if matched == pattern.len() {
            assert(text@.subrange(at as int, at + pattern@.len()) =~= pattern@);
            assert(first_at(text@, pattern@, at as int));
            return Some(at);
        }
        proof {
            if occurs_at(text@, pattern@, at as int) {
                assert(text@.subrange(at as int, at + pattern@.len())[matched as int]
                    == pattern@[matched as int]);
            }
        }
        at = at + 1;
    }
    None
}

/// The characters with the Unicode property White_Space.
pub open spec fn white_space() -> spec_fn(char) -> bool {
    |c: char|
        '\u{9}' <= c <= '\u{d}' || c == ' ' || c == '\u{85}' || c == '\u{a0}' || c == '\u{1680}'
            || '\u{2000}' <= c <= '\u{200a}' || c == '\u{2028}' || c == '\u{2029}' || c
            == '\u{202f}' || c == '\u{205f}' || c == '\u{3000}'
}

/// Tells whether a character is white space.
pub fn is_white_space(c: char) -> (white: bool)
    ensures
        white == white_space()(c),
{
    ('\u{9}' <= c && c <= '\u{d}') || c == ' ' || c == '\u{85}' || c == '\u{a0}' || c == '\u{1680}'
        || ('\u{2000}' <= c && c <= '\u{200a}') || c == '\u{2028}' || c == '\u{2029}' || c
        == '\u{202f}' || c == '\u{205f}' || c == '\u{3000}'
}

/// The text without the white space at its start.
pub open spec fn trimmed_start(text: Seq<char>) -> Seq<char>
    decreases text.len(),
{
    if text.len() > 0 && white_space()(text[0]) {
        trimmed_start(text.skip(1))
    } else {
        text
    }
}

/// The text without the white space at its end.
pub open spec fn trimmed_end(text: Seq<char>) -> Seq<char>
    decreases text.len(),
{
    if text.len() > 0 && white_space()(text.last()) {
        trimmed_end(text.drop_last())
    } else {
        text
    }
}

/// The text without the white space at its ends.
pub open spec fn trimmed(text: Seq<char>) -> Seq<char> {
    trimmed_end(trimmed_start(text))
}

/// Takes the white space off the ends of a text.
pub fn trim(text: &[char]) -> (inner: &[char])
    ensures
        inner@ == trimmed(text@),
{
    let len: usize = text.len();
    let mut from: usize = 0;
    assert(text@.skip(0) =~= text@);
    while from < len && is_white_space(text[from])
        invariant
            len == text@.len(),
            from <= len,
            trimmed_start(text@.skip(from as int)) == trimmed_start(text@),
        decreases len - from,
    {
        assert(text@.skip(from as int).skip(1) =~= text@.skip(from + 1));
        from = from + 1;
    }
    let mut to: usize = len;
    assert(text@.subrange(from as int, len as int) =~= text@.skip(from as int));
    while from < to && is_white_space(text[to - 1])
        invariant
            len == text@.len(),
            from <= to <= len,
            trimmed_end(text@.subrange(from as int, to as int)) == trimmed(text@),
        decreases to,
    {
        assert(text@.subrange(from as int, to as int).drop_last() =~= text@.subrange(
            from as int,
            to - 1,
        ));
        to = to - 1;
    }
    &text[from..to]
}

/// The tokens of a text: what stands between its white space.
pub open spec fn tokens(text: Seq<char>) -> Seq<Seq<char>>
    decreases text.len(),
{
    if text.len() == 0 {
        seq![]
    } else if white_space()(text[0]) {
        tokens(text.skip(1))
    } else {
        let end = span(text, white_space());
        proof {
            lemma_span(text, white_space());
        }
        seq![text.take(end)] + tokens(text.skip(end))
    }
}

/// Splits a text into its tokens.
pub fn split_white_space(text: &[char]) -> (parts: Vec<Vec<char>>)
    ensures
        pieces(parts@) == tokens(text@),
{
    let mut parts: Vec<Vec<char>> = Vec::new();
    let mut at: usize = 0;
    let len: usize = text.len();
    assert(text@.skip(0) =~= text@);
    assert(pieces(parts@) + tokens(text@.skip(0)) =~= tokens(text@));
    while at < len
        invariant
            len == text@.len(),
            at <= len,
            pieces(parts@) + tokens(text@.skip(at as int)) == tokens(text@),
        decreases len - at,
    {
        let ghost rest = text@.skip(at as int);
        if is_white_space(text[at]) {
            assert(rest.skip(1) =~= text@.skip(at + 1));
            at = at + 1;
        } else {
            let mut end: usize = at + 1;
            while end < len && !is_white_space(text[end])
                invariant
                    len == text@.len(),
                    at < end <= len,
                    forall|i: int| at <= i < end ==> !white_space()(#[trigger] text@[i]),
                decreases len - end,
            {
                end = end + 1;
            }
            let ghost before = pieces(parts@);
            let part = copy_range(text, at, end);
            parts.push(part);
            proof {
                lemma_span_is(rest, white_space(), end - at);
                assert(rest.take(end - at) =~= part@);
                assert(rest.skip(end - at) =~= text@.skip(end as int));
                assert(pieces(parts@) =~= before.push(part@));
                assert(pieces(parts@) + tokens(text@.skip(end as int)) =~= before + tokens(rest));
            }
            at = end;
        }
    }
    assert(text@.skip(len as int) =~= Seq::<char>::empty());
    assert(pieces(parts@) + tokens(text@.skip(len as int)) =~= pieces(parts@));
    parts
}

/// The value of a hexadecimal digit.
pub open spec fn hex_digit_of(c: char) -> Option<nat> {
    if '0' <= c <= '9' {
        Some((c as u32 - '0' as u32) as nat)
    } else if 'a' <= c <= 'f' {
        Some((c as u32 - 'a' as u32 + 10) as nat)
    } else if 'A' <= c <= 'F' {
        Some((c as u32 - 'A' as u32 + 10) as nat)
    } else {
        None
    }
}

/// The value of hexadecimal digits, most significant first.
pub open spec fn hex_value(digits: Seq<char>) -> Option<nat>
    decreases digits.len(),
{
    if digits.len() == 0 {
        Some(0)
    } else {
        match (hex_value(digits.drop_last()), hex_digit_of(digits.last())) {
            (Some(high), Some(low)) => Some(16 * high + low),
            _ => None,
        }
    }
}

/// A token of eight characters that is a hexadecimal number; a plus sign may precede the
/// digits.
pub open spec fn hex_word_of(token: Seq<char>) -> Option<u32> {
    let digits = if token.len() > 0 && token[0] == '+' {
        token.skip(1)
    } else {
        token
    };
    match hex_value(digits) {
        Some(value) if token.len() == 8 => Some(value as u32),
        _ => None,
    }
}

/// Reads a hexadecimal digit.
fn hex_digit(c: char) -> (digit: Option<u32>)
    ensures
        match digit {
            Some(digit) => digit < 16 && hex_digit_of(c) == Some(digit as nat),
            None => hex_digit_of(c) is None,
        },
{
    if '0' <= c && c <= '9' {
        Some(c as u32 - '0' as u32)
    } else if 'a' <= c && c <= 'f' {
        Some(c as u32 - 'a' as u32 + 10)
    } else if 'A' <= c && c <= 'F' {
        Some(c as u32 - 'A' as u32 + 10)
    } else {
        None
    }
}

/// Digits of which some first ones are no hexadecimal number are none.
proof fn lemma_hex_prefix(digits: Seq<char>, len: int)
    requires
        0 <= len <= digits.len(),
        hex_value(digits.take(len)) is None,
    ensures
        hex_value(digits) is None,
    decreases digits.len() - len,
{
    if len < digits.len() {
        assert(digits.take(len + 1).drop_last() =~= digits.take(len));
        lemma_hex_prefix(digits, len + 1);
    } else {
        assert(digits.take(len) =~= digits);
    }
}

/// Reads a token of eight characters as a hexadecimal number.
pub fn hex_word(token: &[char]) -> (word: Option<u32>)
    ensures
        word == hex_word_of(token@),
{
    if token.len() != 8 {
        return None;
    }
    let from: usize = if token[0] == '+' {
        1
    } else {
        0
    };
    let ghost digits = token@.skip(from as int);
    assert(token@.skip(0) =~= token@);
    let mut value: u64 = 0;
    proof {
        lemma2_to64();
        assert(digits.take(0) =~= Seq::<char>::empty());
    }
    for i in from..8
        invariant
            from == if token@[0] == '+' {
                1int
            } else {
                0
            },
            token@.len() == 8,
            digits == token@.skip(from as int),
            hex_value(digits.take(i - from)) == Some(value as nat),
            value < pow2((4 * (i - from)) as nat),
    {
        proof {
            assert(digits.take(i - from + 1).drop_last() =~= digits.take(i - from));
            assert(digits.take(i - from + 1).last() == token@[i as int]);
            lemma_pow2_adds(4, (4 * (i - from)) as nat);
            lemma2_to64();
            if i < 8 {
                lemma_nibbles_bound((i - from) as nat);
            }
        }
        match hex_digit(token[i]) {
            Some(digit) => {
                value = 16 * value + digit as u64;
            },
            None => {
                proof {
                    lemma_hex_prefix(digits, i - from + 1);
                    assert(token@.skip(0) =~= token@);
                }
                return None;
            },
        }
    }
    proof {
        assert(digits.take(8 - from) =~= digits);
        lemma2_to64();
        lemma_nibbles_bound((8 - from) as nat);
    }
    Some(value as u32)
}

/// Up to eight hexadecimal digits fit into a word.
proof fn lemma_nibbles_bound(count: nat)
    requires
        count <= 8,
    ensures
        pow2(4 * count) <= 0x1_0000_0000,
{
    lemma2_to64();
    if count < 8 {
        lemma_pow2_strictly_increases(4 * count, 32);
    }
}

/// The number of bytes that a character takes in UTF-8.
fn utf8_width(c: char) -> (width: usize)
    ensures
        width == encode_scalar(c as u32).len(),
{
    let code: u32 = c as u32;
    if code < 0x80 {
        1
    } else if code < 0x800 {
        2
    } else if code < 0x1_0000 {
        3
    } else {
        4
    }
}

/// Tells whether a text takes this many bytes in UTF-8.
pub fn has_utf8_len(text: &[char], len: usize) -> (equal: bool)
    ensures
        equal == (encode_utf8(text@).len() == len),
{
    let mut left: usize = len;
    assert(text@.skip(0) =~= text@);
    for i in 0..text.len()
        invariant
            left <= len,
            encode_utf8(text@).len() == len - left + encode_utf8(text@.skip(i as int)).len(),
    {
        let width: usize = utf8_width(text[i]);
        assert(text@.skip(i as int).drop_first() =~= text@.skip(i + 1));
        if left < width {
            return false;
        }
        left = left - width;
    }
    assert(text@.skip(text@.len() as int) =~= Seq::<char>::empty());
    left == 0
}

/// The text without its colons.
pub open spec fn without_colons(text: Seq<char>) -> Seq<char> {
    text.filter(|c: char| c != ':')
}

/// Takes the colons out of a text.
pub fn remove_colons(text: &[char]) -> (rest: Vec<char>)
    ensures
        rest@ == without_colons(text@),
{
    let mut rest: Vec<char> = Vec::new();
    proof {
        assert(text@.take(0) =~= Seq::<char>::empty());
        reveal(Seq::filter);
    }
    for i in 0..text.len()
        invariant
            rest@ == without_colons(text@.take(i as int)),
    {
        proof {
            reveal(Seq::filter);
            assert(text@.take(i + 1).drop_last() =~= text@.take(i as int));
        }
        if text[i] != ':' {
            rest.push(text[i]);
        }
    }
    assert(text@.take(text@.len() as int) =~= text@);
    rest
}

} // verus!
