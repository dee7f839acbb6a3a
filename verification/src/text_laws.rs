//! What the functions on text do, over all texts.
use crate::text::decimal_of;
use crate::text::find_in;
use crate::text::first_at;
use crate::text::hex_digit_of;
use crate::text::hex_value;
use crate::text::hex_word_of;
use crate::text::lemma_span;
use crate::text::lemma_span_is;
use crate::text::line_feed;
use crate::text::lines;
use crate::text::occurs_at;
use crate::text::pieces;
use crate::text::span;
use crate::text::tokens;
use crate::text::trimmed;
use crate::text::trimmed_end;
use crate::text::trimmed_start;
use crate::text::white_space;
use crate::text::without_colons;
use vstd::arithmetic::power2::lemma2_to64;
use vstd::arithmetic::power2::lemma_pow2_adds;
use vstd::arithmetic::power2::lemma_pow2_strictly_increases;
use vstd::arithmetic::power2::pow2;
use vstd::prelude::*;

verus! {

/// Vectors of characters are seen as what they hold, one by one.
pub proof fn law_pieces(parts: Seq<Vec<char>>, i: int)
    ensures
        pieces(parts).len() == parts.len(),
        0 <= i < parts.len() ==> pieces(parts)[i] == parts[i]@,
{
}

/// A text without a line feed is one line.
pub proof fn law_single_line(text: Seq<char>)
    requires
        forall|i: int| 0 <= i < text.len() ==> text[i] != '\n',
    ensures
        lines(text) == seq![text],
{
    lemma_span_is(text, line_feed(), text.len() as int);
}

/// Two texts with a line feed between them have the lines of both, whatever they are.
pub proof fn law_line_feed_separates(a: Seq<char>, b: Seq<char>)
    ensures
        lines(a + seq!['\n'] + b) == lines(a) + lines(b),
    decreases a.len(),
{
    let text = a + seq!['\n'] + b;
    let end = span(a, line_feed());
    lemma_span(a, line_feed());
    assert forall|i: int| 0 <= i < end implies !line_feed()(#[trigger] text[i]) by {
        assert(text[i] == a[i]);
        assert(!line_feed()(a[i]));
    }
    lemma_span_is(text, line_feed(), end);
    if end < a.len() {
        law_line_feed_separates(a.skip(end + 1), b);
        assert(text.take(end) =~= a.take(end));
        assert(text.skip(end + 1) =~= a.skip(end + 1) + seq!['\n'] + b);
        assert(lines(text) =~= lines(a) + lines(b));
    } else {
        assert(text.take(end) =~= a);
        assert(text.skip(end + 1) =~= b);
    }
}

/// Texts with a line feed between each two of them.
pub open spec fn joined_by_line_feeds(parts: Seq<Seq<char>>) -> Seq<char>
    decreases parts.len(),
{
    if parts.len() == 0 {
        seq![]
    } else if parts.len() == 1 {
        parts[0]
    } else {
        parts[0] + seq!['\n'] + joined_by_line_feeds(parts.skip(1))
    }
}

/// The lines of a text, with line feeds between them, are the whole text, and none of them holds
/// a line feed.
pub proof fn law_lines_are_the_text(text: Seq<char>)
    ensures
        lines(text).len() > 0,
        joined_by_line_feeds(lines(text)) == text,
        forall|i: int, j: int|
            0 <= i < lines(text).len() && 0 <= j < lines(text)[i].len() ==> #[trigger] lines(
                text,
            )[i][j] != '\n',
    decreases text.len(),
{
    let end = span(text, line_feed());
    lemma_span(text, line_feed());
    assert forall|j: int| 0 <= j < end implies #[trigger] text[j] != '\n' by {
        assert(!line_feed()(text[j]));
    }
    if end < text.len() {
        let rest = text.skip(end + 1);
        law_lines_are_the_text(rest);
        let all = lines(text);
        assert(all =~= seq![text.take(end)] + lines(rest));
        assert(all.skip(1) =~= lines(rest));
        assert(joined_by_line_feeds(all) =~= text);
        assert forall|i: int, j: int| 0 <= i < all.len() && 0 <= j < all[i].len() implies
            #[trigger] all[i][j] != '\n' by {
            if i > 0 {
                assert(all[i] == lines(rest)[i - 1]);
                assert(lines(rest)[i - 1][j] != '\n');
            } else {
                assert(all[0][j] == text[j]);
            }
        }
    }
}

/// A token that white space or the end of the text follows is the first one.
pub proof fn lemma_first_token(token: Seq<char>, rest: Seq<char>)
    requires
        token.len() > 0,
        forall|i: int| 0 <= i < token.len() ==> !white_space()(#[trigger] token[i]),
        rest.len() > 0 ==> white_space()(rest[0]),
    ensures
        tokens(token + rest) == seq![token] + tokens(rest),
{
    let text = token + rest;
    let end = token.len() as int;
    assert forall|i: int| 0 <= i < end implies !white_space()(#[trigger] text[i]) by {
        assert(text[i] == token[i]);
    }
    lemma_span_is(text, white_space(), end);
    assert(text.take(end) =~= token);
    assert(text.skip(end) =~= rest);
}

/// Text that starts with white space adds its tokens to those of the text before it.
pub proof fn lemma_tokens_append(text: Seq<char>, more: Seq<char>)
    requires
        more.len() > 0 ==> white_space()(more[0]),
    ensures
        tokens(text + more) == tokens(text) + tokens(more),
    decreases text.len(),
{
    let all = text + more;
    if text.len() == 0 {
        assert(all =~= more);
        assert(tokens(text) + tokens(more) =~= tokens(more));
    } else if white_space()(text[0]) {
        lemma_tokens_append(text.skip(1), more);
        assert(all.skip(1) =~= text.skip(1) + more);
    } else {
        lemma_span(text, white_space());
        let end = span(text, white_space());
        assert forall|i: int| 0 <= i < end implies !white_space()(#[trigger] all[i]) by {
            assert(all[i] == text[i]);
        }
        lemma_span_is(all, white_space(), end);
        lemma_tokens_append(text.skip(end), more);
        assert(all.take(end) =~= text.take(end));
        assert(all.skip(end) =~= text.skip(end) + more);
        assert(tokens(all) =~= tokens(text) + tokens(more));
    }
}

/// White space separates tokens: two texts with some between them have the tokens of both.
pub proof fn law_white_space_separates(a: Seq<char>, white: char, b: Seq<char>)
    requires
        white_space()(white),
    ensures
        tokens(a + seq![white] + b) == tokens(a) + tokens(b),
{
    let rest = seq![white] + b;
    lemma_tokens_append(a, rest);
    assert(rest.skip(1) =~= b);
    assert(a + seq![white] + b =~= a + rest);
}

/// A text without white space is one token, and the empty text has none.
pub proof fn law_single_token(text: Seq<char>)
    requires
        forall|i: int| 0 <= i < text.len() ==> !white_space()(#[trigger] text[i]),
    ensures
        text.len() > 0 ==> tokens(text) == seq![text],
        text.len() == 0 ==> tokens(text) == Seq::<Seq<char>>::empty(),
{
    if text.len() > 0 {
        let none = Seq::<char>::empty();
        lemma_first_token(text, none);
        assert(text + none =~= text);
        assert(seq![text] + tokens(none) =~= seq![text]);
    }
}

/// The text is nothing but white space, such as the carriage return before a line feed.
pub open spec fn is_blank(text: Seq<char>) -> bool {
    forall|i: int| 0 <= i < text.len() ==> white_space()(#[trigger] text[i])
}

/// White space has no tokens.
pub proof fn lemma_blank_tokens(text: Seq<char>)
    requires
        is_blank(text),
    ensures
        tokens(text) == Seq::<Seq<char>>::empty(),
    decreases text.len(),
{
    if text.len() > 0 {
        assert forall|i: int| 0 <= i < text.skip(1).len() implies white_space()(
            #[trigger] text.skip(1)[i],
        ) by {
            assert(text.skip(1)[i] == text[i + 1]);
        }
        lemma_blank_tokens(text.skip(1));
    }
}

/// Trimming takes off exactly the white space at the ends.
pub proof fn law_trimming(before: Seq<char>, inner: Seq<char>, behind: Seq<char>)
    requires
        is_blank(before),
        is_blank(behind),
        inner.len() > 0 ==> !white_space()(inner[0]) && !white_space()(inner.last()),
    ensures
        trimmed(before + inner + behind) == inner,
    decreases before.len() + behind.len(),
{
    let text = before + inner + behind;
    if before.len() > 0 {
        assert(text[0] == before[0]);
        assert forall|i: int| 0 <= i < before.skip(1).len() implies white_space()(
            #[trigger] before.skip(1)[i],
        ) by {
            assert(before.skip(1)[i] == before[i + 1]);
        }
        law_trimming(before.skip(1), inner, behind);
        assert(text.skip(1) =~= before.skip(1) + inner + behind);
    } else if inner.len() == 0 && behind.len() > 0 {
        assert(text[0] == behind[0]);
        assert forall|i: int| 0 <= i < behind.skip(1).len() implies white_space()(
            #[trigger] behind.skip(1)[i],
        ) by {
            assert(behind.skip(1)[i] == behind[i + 1]);
        }
        law_trimming(before, inner, behind.skip(1));
        assert(text.skip(1) =~= before + inner + behind.skip(1));
    } else if inner.len() == 0 {
        assert(text =~= inner);
        assert(trimmed_start(text) == text);
    } else {
        assert(text[0] == inner[0]);
        assert(trimmed_start(text) == text);
        assert(text =~= inner + behind);
        lemma_trimmed_end(inner, behind);
    }
}

/// White space at the end is taken off.
proof fn lemma_trimmed_end(inner: Seq<char>, behind: Seq<char>)
    requires
        is_blank(behind),
        inner.len() > 0,
        !white_space()(inner.last()),
    ensures
        trimmed_end(inner + behind) == inner,
    decreases behind.len(),
{
    let text = inner + behind;
    if behind.len() > 0 {
        assert(text.last() == behind[behind.len() - 1]);
        lemma_trimmed_end(inner, behind.drop_last());
        assert(text.drop_last() =~= inner + behind.drop_last());
    } else {
        assert(text =~= inner);
    }
}

/// A pattern that stands in a text is found.
pub proof fn lemma_found(text: Seq<char>, pattern: Seq<char>, at: int)
    requires
        occurs_at(text, pattern, at),
    ensures
        find_in(text, pattern) is Some,
    decreases at,
{
    if exists|i: int| 0 <= i < at && occurs_at(text, pattern, i) {
        let i = choose|i: int| 0 <= i < at && occurs_at(text, pattern, i);
        lemma_found(text, pattern, i);
    } else {
        assert(first_at(text, pattern, at));
    }
}

/// The place that is found is the first one at which all characters of the pattern stand; if
/// none is found, they stand nowhere.
pub proof fn law_first_occurrence_is_found(text: Seq<char>, pattern: Seq<char>)
    ensures
        match find_in(text, pattern) {
            Some(at) => {
                &&& 0 <= at
                &&& at + pattern.len() <= text.len()
                &&& forall|j: int| 0 <= j < pattern.len() ==> text[at + j] == #[trigger] pattern[j]
                &&& forall|i: int|
                    0 <= i < at ==> !(#[trigger] text.subrange(i, i + pattern.len()) == pattern)
            },
            None => forall|i: int|
                0 <= i <= text.len() - pattern.len() ==> !(#[trigger] text.subrange(
                    i,
                    i + pattern.len(),
                ) == pattern),
        },
{
    match find_in(text, pattern) {
        Some(at) => {
            assert(first_at(text, pattern, at));
            let part = text.subrange(at, at + pattern.len());
            assert forall|j: int| 0 <= j < pattern.len() implies text[at + j]
                == #[trigger] pattern[j] by {
                assert(part[j] == text[at + j]);
            }
            assert forall|i: int| 0 <= i < at implies !(#[trigger] text.subrange(
                i,
                i + pattern.len(),
            ) == pattern) by {
                assert(!occurs_at(text, pattern, i));
            }
        },
        None => {
            assert forall|i: int| 0 <= i <= text.len() - pattern.len() implies !(
            #[trigger] text.subrange(i, i + pattern.len()) == pattern) by {
                if text.subrange(i, i + pattern.len()) == pattern {
                    assert(occurs_at(text, pattern, i));
                    lemma_found(text, pattern, i);
                }
            }
        },
    }
}

/// A pattern stands at a place if and only if its characters stand there one after the other.
pub proof fn law_occurrence(text: Seq<char>, pattern: Seq<char>, at: int)
    ensures
        occurs_at(text, pattern, at) <==> 0 <= at && at + pattern.len() <= text.len() && (forall|
            j: int,
        |
            0 <= j < pattern.len() ==> text[at + j] == #[trigger] pattern[j]),
{
    if 0 <= at && at + pattern.len() <= text.len() {
        let part = text.subrange(at, at + pattern.len());
        if occurs_at(text, pattern, at) {
            assert forall|j: int| 0 <= j < pattern.len() implies text[at + j]
                == #[trigger] pattern[j] by {
                assert(part[j] == text[at + j]);
            }
        }
        if forall|j: int| 0 <= j < pattern.len() ==> text[at + j] == #[trigger] pattern[j] {
            assert(part =~= pattern);
        }
    }
}

/// The hexadecimal digits are those of this table, in either case, and no others.
pub proof fn law_hex_digits(c: char, i: int)
    ensures
        0 <= i < 16 ==> hex_digit_of("0123456789abcdef"@[i]) == Some(i as nat) && hex_digit_of(
            "0123456789ABCDEF"@[i],
        ) == Some(i as nat),
        !"0123456789abcdef"@.contains(c) && !"0123456789ABCDEF"@.contains(c) ==> hex_digit_of(
            c,
        ) is None,
{
    reveal_strlit("0123456789abcdef");
    reveal_strlit("0123456789ABCDEF");
    let lower = "0123456789abcdef"@;
    let upper = "0123456789ABCDEF"@;
    if hex_digit_of(c) is Some {
        let d = hex_digit_of(c)->0 as int;
        assert(0 <= d < 16);
        if '0' <= c <= '9' || 'a' <= c <= 'f' {
            assert(lower[d] as u32 == c as u32);
            assert(lower[d] == c);
        } else {
            assert(upper[d] as u32 == c as u32);
            assert(upper[d] == c);
        }
    }
}

/// A hexadecimal number is its digits, the first one counting the most.
pub proof fn law_hex_value(digits: Seq<char>, last: char)
    ensures
        hex_value(Seq::<char>::empty()) == Some(0nat),
        match (hex_value(digits), hex_digit_of(last)) {
            (Some(high), Some(low)) => hex_value(digits.push(last)) == Some(16 * high + low),
            _ => hex_value(digits.push(last)) is None,
        },
{
    assert(digits.push(last).drop_last() =~= digits);
}

/// A token is a word if and only if it has eight characters that are all hexadecimal digits, or
/// a plus sign and seven of them; the word is the number of the digits.
pub proof fn law_hex_word(token: Seq<char>)
    ensures
        token.len() != 8 ==> hex_word_of(token) is None,
        token.len() == 8 && token[0] != '+' ==> match hex_value(token) {
            Some(value) => value <= u32::MAX && hex_word_of(token) == Some(value as u32),
            None => hex_word_of(token) is None,
        },
        token.len() == 8 && token[0] == '+' ==> match hex_value(token.skip(1)) {
            Some(value) => value <= u32::MAX && hex_word_of(token) == Some(value as u32),
            None => hex_word_of(token) is None,
        },
{
    lemma_hex_value_bound(token);
    lemma_hex_value_bound(token.skip(1));
    lemma2_to64();
    if token.len() == 8 {
        lemma_pow2_strictly_increases(28, 32);
    }
}

/// A hexadecimal number of `n` digits is less than 16 to the power of `n`.
proof fn lemma_hex_value_bound(digits: Seq<char>)
    ensures
        hex_value(digits) is Some ==> hex_value(digits)->0 < pow2(
            4 * digits.len(),
        ),
    decreases digits.len(),
{
    lemma2_to64();
    if digits.len() > 0 {
        let rest = digits.drop_last();
        lemma_hex_value_bound(rest);
        lemma_pow2_adds(4, 4 * rest.len());
    }
}

/// Taking out colons keeps every other character, in order.
pub proof fn law_without_colons(text: Seq<char>, c: char)
    ensures
        without_colons(Seq::<char>::empty()) == Seq::<char>::empty(),
        c == ':' ==> without_colons(text.push(c)) == without_colons(text),
        c != ':' ==> without_colons(text.push(c)) == without_colons(text).push(c),
{
    reveal(Seq::filter);
    assert(text.push(c).drop_last() =~= text);
    assert(without_colons(Seq::<char>::empty()) =~= Seq::<char>::empty());
}

/// The number that decimal digits stand for, the first one counting the most.
pub open spec fn decimal_value(digits: Seq<char>) -> int
    decreases digits.len(),
{
    if digits.len() == 0 {
        0
    } else {
        10 * decimal_value(digits.drop_last()) + (digits.last() as u32 - 0x30)
    }
}

/// A number in decimal is made of digits, has no zero in front but for zero itself, and stands
/// for the number.
pub proof fn law_decimal(value: nat)
    ensures
        decimal_value(decimal_of(value)) == value,
        decimal_of(value).len() > 0,
        decimal_of(value)[0] == '0' ==> value == 0 && decimal_of(value).len() == 1,
        forall|i: int|
            0 <= i < decimal_of(value).len() ==> '0' <= #[trigger] decimal_of(value)[i] <= '9',
    decreases value,
{
    let text = decimal_of(value);
    if value < 10 {
        assert(text.drop_last() =~= Seq::<char>::empty());
        assert(decimal_value(text.drop_last()) == 0);
    } else {
        law_decimal(value / 10);
        assert(text.drop_last() =~= decimal_of(value / 10));
    }
}

} // verus!
