//! What holds of the output of tools and of the actions of a run.
use crate::plan::deliveries_of;
use crate::plan::image_destination;
use crate::plan::ActionView;
use crate::plan::Options;
use crate::text::find_in;
use crate::text::first_at;
use crate::text::hex_value;
use crate::text::hex_word_of;
use crate::text::lemma_span;
use crate::text::line_feed;
use crate::text::lines;
use crate::text::lossy_text_of;
use crate::text::occurs_at;
use crate::text::span;
use crate::text::tokens;
use crate::text::trimmed_end;
use crate::text::trimmed_start;
use crate::text::white_space;
use crate::text::without_colons;
pub use crate::text_laws::is_blank;
use crate::text_laws::lemma_blank_tokens;
use crate::text_laws::lemma_first_token;
use crate::text_laws::lemma_found;
use crate::text_laws::law_line_feed_separates;
use crate::text_laws::law_single_line;
use crate::text_laws::law_single_token;
use crate::text_laws::law_trimming;
use crate::text_laws::law_white_space_separates;
use crate::text_laws::law_without_colons;
use crate::text_laws::lemma_tokens_append;
use crate::tools::as_hex_word;
use crate::tools::dumped_key;
use crate::tools::first_found;
use crate::tools::hex_words;
use crate::tools::is_failure;
use crate::tools::key_in_line;
use crate::tools::mac_in_line;
use crate::tools::reads_utf8;
use crate::tools::reported_mac;
use crate::tools::Task;
use crate::tools::ToolError;
use crate::tools::ToolOutput;
use crate::words::bytes_words;
use crate::words::lemma_bytes_round_trip;
use crate::words::lemma_words_round_trip;
use vstd::arithmetic::power2::lemma2_to64;
use vstd::arithmetic::power2::lemma_pow2_adds;
use vstd::arithmetic::power2::pow2;
use vstd::prelude::*;
use vstd::utf8::decode_utf8;
use vstd::utf8::encode_scalar;
use vstd::utf8::encode_utf8;
use vstd::utf8::valid_utf8;

verus! {

/// The character of a hexadecimal digit, in lower case.
pub open spec fn hex_char(digit: nat) -> char {
    if digit < 10 {
        ('0' as u32 + digit) as char
    } else {
        ('a' as u32 + digit - 10) as char
    }
}

/// The `len` low hexadecimal digits of a number, most significant first.
pub open spec fn hex_digits(value: nat, len: nat) -> Seq<char>
    decreases len,
{
    if len == 0 {
        seq![]
    } else {
        hex_digits(value / 16, (len - 1) as nat).push(hex_char(value % 16))
    }
}

/// A word as eight hexadecimal digits.
pub open spec fn hex_text(word: u32) -> Seq<char> {
    hex_digits(word as nat, 8)
}

/// Words as a dump has them: each as eight hexadecimal digits after a space.
pub open spec fn dump_text(words: Seq<u32>) -> Seq<char>
    decreases words.len(),
{
    if words.len() == 0 {
        seq![]
    } else {
        seq![' '] + hex_text(words[0]) + dump_text(words.skip(1))
    }
}

/// Hexadecimal digits are read back as the number, and none of them is white space or a sign.
proof fn lemma_hex_digits(value: nat, len: nat)
    requires
        value < pow2(4 * len),
    ensures
        hex_digits(value, len).len() == len,
        hex_value(hex_digits(value, len)) == Some(value),
        forall|i: int|
            0 <= i < len ==> !white_space()(#[trigger] hex_digits(value, len)[i]) && hex_digits(
                value,
                len,
            )[i] != '+',
    decreases len,
{
    lemma2_to64();
    if len > 0 {
        let rest = (len - 1) as nat;
        lemma_pow2_adds(4, 4 * rest);
        lemma_hex_digits(value / 16, rest);
        let text = hex_digits(value, len);
        let head = hex_digits(value / 16, rest);
        assert(text.drop_last() =~= head);
        assert forall|i: int| 0 <= i < len implies !white_space()(#[trigger] text[i]) && text[i]
            != '+' by {
            if i < rest {
                assert(text[i] == head[i]);
            }
        }
    }
}

/// A word that is written as eight hexadecimal digits is read back.
pub proof fn law_hex_word_is_read_back(word: u32)
    ensures
        hex_word_of(hex_text(word)) == Some(word),
{
    lemma2_to64();
    lemma_hex_digits(word as nat, 8);
}

/// The tokens of a dump are its words.
proof fn lemma_dump_tokens(words: Seq<u32>)
    ensures
        tokens(dump_text(words)) == Seq::new(words.len(), |i: int| hex_text(words[i])),
        dump_text(words).len() > 0 ==> dump_text(words)[0] == ' ',
    decreases words.len(),
{
    if words.len() > 0 {
        let tail = words.skip(1);
        let text = dump_text(words);
        lemma2_to64();
        lemma_dump_tokens(tail);
        lemma_hex_digits(words[0] as nat, 8);
        lemma_first_token(hex_text(words[0]), dump_text(tail));
        assert(text.skip(1) =~= hex_text(words[0]) + dump_text(tail));
        assert(tokens(text) =~= Seq::new(words.len(), |i: int| hex_text(words[i])));
    }
}

/// Words that are written as tokens are read back from the tokens.
proof fn lemma_words_of_tokens(words: Seq<u32>)
    ensures
        Seq::new(words.len(), |i: int| hex_text(words[i])).filter_map(as_hex_word()) == words,
    decreases words.len(),
{
    let parts = Seq::new(words.len(), |i: int| hex_text(words[i]));
    if words.len() > 0 {
        let init = words.drop_last();
        lemma_words_of_tokens(init);
        law_hex_word_is_read_back(words.last());
        assert(parts.drop_last() =~= Seq::new(init.len(), |i: int| hex_text(init[i])));
        assert(parts.filter_map(as_hex_word()) =~= words);
    } else {
        assert(parts.filter_map(as_hex_word()) =~= words);
    }
}

/// White space at its start does not change the tokens of a text.
proof fn lemma_tokens_trimmed_start(text: Seq<char>)
    ensures
        tokens(trimmed_start(text)) == tokens(text),
    decreases text.len(),
{
    if text.len() > 0 && white_space()(text[0]) {
        lemma_tokens_trimmed_start(text.skip(1));
    }
}

/// White space at its end does not change the tokens of a text.
proof fn lemma_tokens_trimmed_end(text: Seq<char>)
    ensures
        tokens(trimmed_end(text)) == tokens(text),
    decreases text.len(),
{
    if text.len() > 0 && white_space()(text.last()) {
        let init = text.drop_last();
        let last = seq![text.last()];
        lemma_tokens_trimmed_end(init);
        lemma_tokens_append(init, last);
        assert(text =~= init + last);
        assert(tokens(last.skip(1)) =~= Seq::<Seq<char>>::empty());
        assert(tokens(text) =~= tokens(init));
    }
}

/// The words of a text are those of its tokens, trimmed or not.
proof fn lemma_hex_words(text: Seq<char>)
    ensures
        hex_words(text) == tokens(text).filter_map(as_hex_word()),
{
    lemma_tokens_trimmed_start(text);
    lemma_tokens_trimmed_end(trimmed_start(text));
}

/// Tokens after others add their words to those of the others.
proof fn lemma_filter_map_append(parts: Seq<Seq<char>>, more: Seq<Seq<char>>)
    ensures
        (parts + more).filter_map(as_hex_word()) == parts.filter_map(as_hex_word())
            + more.filter_map(as_hex_word()),
    decreases more.len(),
{
    let f = as_hex_word();
    if more.len() == 0 {
        assert(parts + more =~= parts);
        assert(parts.filter_map(f) + more.filter_map(f) =~= parts.filter_map(f));
    } else {
        lemma_filter_map_append(parts, more.drop_last());
        assert((parts + more).drop_last() =~= parts + more.drop_last());
        assert((parts + more).filter_map(f) =~= parts.filter_map(f) + more.filter_map(f));
    }
}

/// The line of `BLOCK_KEY2` in a dump: a label, the mark `dump:`, and the 32 bytes of the key as
/// eight words in hexadecimal, the least significant byte of each word being the first one; then
/// the ending of the line.
pub open spec fn dump_line(label: Seq<char>, key: Seq<u8>, ending: Seq<char>) -> Seq<char> {
    label + "dump:"@ + dump_text(bytes_words(key)) + ending
}

/// A label names `BLOCK_KEY2`, and has no word after a `dump:` of its own: such a word would be
/// taken for one of the key.
pub open spec fn is_label(label: Seq<char>) -> bool {
    let head = label + "dump:"@;
    &&& exists|at: int| occurs_at(label, "BLOCK_KEY2"@, at)
    &&& hex_words(head.skip(find_in(head, "dump:"@)->0 + 5)).len() == 0
}

/// A label in which no `dump:` stands has no word after one.
pub proof fn law_label_without_mark(label: Seq<char>)
    requires
        exists|at: int| occurs_at(label, "BLOCK_KEY2"@, at),
        forall|at: int| !occurs_at(label, "dump:"@, at),
    ensures
        is_label(label),
{
    reveal_strlit("dump:");
    let dump = "dump:"@;
    let head = label + dump;
    let start = label.len() as int;
    assert(head.subrange(start, start + 5) =~= dump);
    assert forall|i: int| 0 <= i < start implies !occurs_at(head, dump, i) by {
        if occurs_at(head, dump, i) {
            let found = head.subrange(i, i + 5);
            if i + 5 <= start {
                assert(label.subrange(i, i + 5) =~= found);
                assert(occurs_at(label, dump, i));
            } else {
                assert(found[start - i] == head[start]);
                assert(head[start] == dump[0]);
                assert(dump[start - i] == 'd');
            }
        }
    }
    assert(first_at(head, dump, start));
    let at = find_in(head, dump)->0;
    assert(first_at(head, dump, at));
    let rest = head.skip(at + 5);
    assert(rest =~= Seq::<char>::empty());
    lemma_hex_words(rest);
    assert(tokens(rest).filter_map(as_hex_word()).len() == 0);
}

/// From the line of `BLOCK_KEY2` in a dump the key is read back, whether the line ends with a
/// carriage return, with other white space or with the last word.
pub proof fn law_dumped_key_is_read_back(label: Seq<char>, key: Seq<u8>, ending: Seq<char>)
    requires
        key.len() == 32,
        is_label(label),
        is_blank(ending),
    ensures
        key_in_line(dump_line(label, key, ending)) == Some(key),
{
    reveal_strlit("dump:");
    reveal_strlit("BLOCK_KEY2");
    let words = bytes_words(key);
    let dump = "dump:"@;
    let head = label + dump;
    let text = dump_text(words) + ending;
    let line = dump_line(label, key, ending);
    lemma_dump_tokens(words);
    lemma_blank_tokens(ending);
    lemma_tokens_append(dump_text(words), ending);
    assert(tokens(text) =~= tokens(dump_text(words)));
    assert(text.len() > 0 && text[0] == ' ') by {
        assert(text[0] == dump_text(words)[0]);
    }
    assert(head.subrange(label.len() as int, head.len() as int) =~= dump);
    lemma_found(head, dump, label.len() as int);
    let at = find_in(head, dump)->0;
    assert(first_at(head, dump, at));
    assert(line.subrange(at, at + 5) =~= head.subrange(at, at + 5));
    assert forall|i: int| 0 <= i < at implies !occurs_at(line, dump, i) by {
        if occurs_at(line, dump, i) {
            assert(head.subrange(i, i + 5) =~= line.subrange(i, i + 5));
            assert(occurs_at(head, dump, i));
        }
    }
    assert(first_at(line, dump, at));
    let found = find_in(line, dump)->0;
    assert(first_at(line, dump, found));
    assert(found == at);
    let between = head.skip(at + 5);
    assert(line.skip(at + 5) =~= between + text);
    lemma_tokens_append(between, text);
    lemma_words_of_tokens(words);
    lemma_filter_map_append(tokens(between), tokens(text));
    lemma_hex_words(between);
    lemma_hex_words(between + text);
    assert(hex_words(between) + words =~= words);
    lemma_bytes_round_trip(key);
    assert(words.take(8) =~= words);
    let block = choose|at: int| occurs_at(label, "BLOCK_KEY2"@, at);
    assert(line.subrange(block, block + 10) =~= label.subrange(block, block + 10));
    lemma_found(line, "BLOCK_KEY2"@, block);
}

/// A line that does not name `BLOCK_KEY2` gives no key.
proof fn lemma_no_key(line: Seq<char>)
    requires
        forall|at: int| !occurs_at(line, "BLOCK_KEY2"@, at),
    ensures
        key_in_line(line) is None,
{
    if exists|at: int| first_at(line, "BLOCK_KEY2"@, at) {
        let at = choose|at: int| first_at(line, "BLOCK_KEY2"@, at);
        assert(occurs_at(line, "BLOCK_KEY2"@, at));
    }
}

/// From a dump in which one line is that of `BLOCK_KEY2`, and no line before it names it, the
/// key is read back.
pub proof fn law_key_is_read_from_dump(
    parts: Seq<Seq<char>>,
    i: int,
    label: Seq<char>,
    key: Seq<u8>,
    ending: Seq<char>,
)
    requires
        key.len() == 32,
        is_label(label),
        is_blank(ending),
        0 <= i < parts.len(),
        parts[i] == dump_line(label, key, ending),
        forall|j: int, at: int| 0 <= j < i ==> !occurs_at(parts[j], "BLOCK_KEY2"@, at),
    ensures
        first_found(parts, dumped_key()) == Some(key),
    decreases i,
{
    if i == 0 {
        law_dumped_key_is_read_back(label, key, ending);
    } else {
        assert forall|at: int| !occurs_at(parts[0], "BLOCK_KEY2"@, at) by {}
        lemma_no_key(parts[0]);
        let rest = parts.skip(1);
        assert forall|j: int, at: int| 0 <= j < i - 1 implies !occurs_at(
            rest[j],
            "BLOCK_KEY2"@,
            at,
        ) by {
            assert(rest[j] == parts[j + 1]);
        }
        law_key_is_read_from_dump(rest, i - 1, label, key, ending);
    }
}

/// What is found first is what is found in the first line in which anything is found.
pub proof fn law_first_line_counts<T>(
    parts: Seq<Seq<char>>,
    f: spec_fn(Seq<char>) -> Option<T>,
    i: int,
)
    requires
        0 <= i <= parts.len(),
        forall|j: int| 0 <= j < i ==> f(#[trigger] parts[j]) is None,
    ensures
        i == parts.len() ==> first_found(parts, f) is None,
        i < parts.len() && f(parts[i]) is Some ==> first_found(parts, f) == f(parts[i]),
    decreases i,
{
    if i > 0 {
        let rest = parts.skip(1);
        assert(f(parts[0]) is None);
        assert forall|j: int| 0 <= j < i - 1 implies f(#[trigger] rest[j]) is None by {
            assert(rest[j] == parts[j + 1]);
        }
        law_first_line_counts(rest, f, i - 1);
    }
}

/// The words of a text are its tokens that are words, in order, whatever stands between them.
pub proof fn law_words_of_text(a: Seq<char>, white: char, b: Seq<char>, token: Seq<char>)
    requires
        white_space()(white),
        token.len() > 0,
        forall|i: int| 0 <= i < token.len() ==> !white_space()(#[trigger] token[i]),
    ensures
        hex_words(a + seq![white] + b) == hex_words(a) + hex_words(b),
        hex_word_of(token) is Some ==> hex_words(token) == seq![hex_word_of(token)->0],
        hex_word_of(token) is None ==> hex_words(token) == Seq::<u32>::empty(),
        hex_words(Seq::<char>::empty()) == Seq::<u32>::empty(),
{
    lemma_hex_words(Seq::empty());
    law_single_token(Seq::empty());
    lemma_hex_words(a + seq![white] + b);
    lemma_hex_words(a);
    lemma_hex_words(b);
    lemma_hex_words(token);
    law_white_space_separates(a, white, b);
    lemma_filter_map_append(tokens(a), tokens(b));
    law_single_token(token);
    let one = seq![token];
    let none = Seq::<Seq<char>>::empty();
    assert(one.drop_last() =~= none);
    assert(none.filter_map(as_hex_word()) =~= Seq::<u32>::empty());
    assert(hex_word_of(token) is Some ==> one.filter_map(as_hex_word()) =~= seq![
        hex_word_of(token)->0,
    ]);
}

/// A line gives a key if and only if it names `BLOCK_KEY2`, has the mark `dump:` and at least
/// eight words behind the first such mark; the key is made of the first eight.
pub proof fn law_key_of_line(line: Seq<char>)
    ensures
        match (find_in(line, "BLOCK_KEY2"@), find_in(line, "dump:"@)) {
            (Some(_), Some(at)) => {
                let words = hex_words(line.skip(at + 5));
                &&& words.len() < 8 ==> key_in_line(line) is None
                &&& words.len() >= 8 ==> key_in_line(line) is Some && key_in_line(line)->0.len()
                    == 32 && bytes_words(key_in_line(line)->0) == words.take(8)
            },
            _ => key_in_line(line) is None,
        },
        dumped_key()(line) == key_in_line(line),
{
    if find_in(line, "dump:"@) is Some {
        let words = hex_words(line.skip(find_in(line, "dump:"@)->0 + 5));
        if words.len() >= 8 {
            lemma_words_round_trip(words.take(8));
        }
    }
}

/// A dump of words holds no line feed.
proof fn lemma_dump_has_no_line_feed(words: Seq<u32>)
    ensures
        forall|i: int| 0 <= i < dump_text(words).len() ==> #[trigger] dump_text(words)[i] != '\n',
    decreases words.len(),
{
    if words.len() > 0 {
        let tail = words.skip(1);
        let text = dump_text(words);
        lemma2_to64();
        lemma_hex_digits(words[0] as nat, 8);
        lemma_dump_has_no_line_feed(tail);
        assert forall|i: int| 0 <= i < text.len() implies #[trigger] text[i] != '\n' by {
            if 1 <= i < 9 {
                assert(text[i] == hex_text(words[0])[i - 1]);
                assert(!white_space()(hex_text(words[0])[i - 1]));
            } else if i >= 9 {
                assert(text[i] == dump_text(tail)[i - 9]);
            }
        }
    }
}

/// What stands in a line stands in the text.
proof fn lemma_occurs_in_line(text: Seq<char>, j: int, pattern: Seq<char>, at: int)
    requires
        0 <= j < lines(text).len(),
        occurs_at(lines(text)[j], pattern, at),
    ensures
        exists|place: int| occurs_at(text, pattern, place),
    decreases text.len(),
{
    let end = span(text, line_feed());
    lemma_span(text, line_feed());
    let line = lines(text)[j];
    let found = line.subrange(at, at + pattern.len());
    if end < text.len() {
        let rest = text.skip(end + 1);
        if j == 0 {
            assert(line == text.take(end));
            assert(text.subrange(at, at + pattern.len()) =~= found);
            assert(occurs_at(text, pattern, at));
        } else {
            assert(line == lines(rest)[j - 1]);
            lemma_occurs_in_line(rest, j - 1, pattern, at);
            let place = choose|place: int| occurs_at(rest, pattern, place);
            let there = end + 1 + place;
            assert(text.subrange(there, there + pattern.len()) =~= rest.subrange(
                place,
                place + pattern.len(),
            ));
            assert(occurs_at(text, pattern, there));
        }
    } else {
        assert(line == text);
        assert(occurs_at(text, pattern, at));
    }
}

/// A line between line feeds, or at an end of the text, is one of the lines.
proof fn lemma_line_in_text(before: Seq<char>, line: Seq<char>, rest: Seq<char>) -> (start: Seq<
    Seq<char>,
>)
    requires
        before.len() == 0 || before.last() == '\n',
        rest.len() == 0 || rest[0] == '\n',
        forall|i: int| 0 <= i < line.len() ==> line[i] != '\n',
    ensures
        before.len() == 0 ==> start == Seq::<Seq<char>>::empty(),
        before.len() > 0 ==> start == lines(before.drop_last()),
        start.len() < lines(before + line + rest).len(),
        lines(before + line + rest).take(start.len() as int) == start,
        lines(before + line + rest)[start.len() as int] == line,
{
    law_single_line(line);
    let tail = line + rest;
    if rest.len() > 0 {
        law_line_feed_separates(line, rest.skip(1));
        assert(tail =~= line + seq!['\n'] + rest.skip(1));
    } else {
        assert(tail =~= line);
    }
    assert(lines(tail).len() > 0 && lines(tail)[0] == line);
    if before.len() > 0 {
        let front = before.drop_last();
        law_line_feed_separates(front, tail);
        assert(before + line + rest =~= front + seq!['\n'] + tail);
        let all = lines(front) + lines(tail);
        assert(all.take(lines(front).len() as int) =~= lines(front));
        lines(front)
    } else {
        assert(before + line + rest =~= tail);
        assert(lines(tail).take(0) =~= Seq::<Seq<char>>::empty());
        Seq::empty()
    }
}

/// What does not stand in a text does not stand in the lines before its last line feed.
proof fn lemma_front_lines_lack(before: Seq<char>, pattern: Seq<char>, j: int, at: int)
    requires
        before.len() > 0,
        forall|place: int| !occurs_at(before, pattern, place),
        0 <= j < lines(before.drop_last()).len(),
    ensures
        !occurs_at(lines(before.drop_last())[j], pattern, at),
{
    let front = before.drop_last();
    if occurs_at(lines(front)[j], pattern, at) {
        lemma_occurs_in_line(front, j, pattern, at);
        let place = choose|place: int| occurs_at(front, pattern, place);
        assert(before.subrange(place, place + pattern.len()) =~= front.subrange(
            place,
            place + pattern.len(),
        ));
        assert(occurs_at(before, pattern, place));
    }
}

/// From the text of a dump the key is read back, however long the text is and wherever the line
/// of `BLOCK_KEY2` stands in it, if nothing before that line names it.
pub proof fn law_key_is_read_from_text(
    before: Seq<char>,
    label: Seq<char>,
    key: Seq<u8>,
    ending: Seq<char>,
    rest: Seq<char>,
)
    requires
        key.len() == 32,
        is_label(label),
        is_blank(ending),
        forall|i: int| 0 <= i < label.len() ==> label[i] != '\n',
        forall|i: int| 0 <= i < ending.len() ==> ending[i] != '\n',
        before.len() == 0 || before.last() == '\n',
        forall|at: int| !occurs_at(before, "BLOCK_KEY2"@, at),
        rest.len() == 0 || rest[0] == '\n',
    ensures
        first_found(
            lines(before + (label + "dump:"@ + dump_text(bytes_words(key)) + ending) + rest),
            dumped_key(),
        ) == Some(key),
{
    reveal_strlit("dump:");
    let words = bytes_words(key);
    let line = dump_line(label, key, ending);
    lemma_dump_has_no_line_feed(words);
    let start_dump = label.len() + 5;
    let start_end = start_dump + dump_text(words).len();
    assert forall|i: int| 0 <= i < line.len() implies line[i] != '\n' by {
        if i < label.len() {
            assert(line[i] == label[i]);
        } else if i < start_dump {
            assert(line[i] == "dump:"@[i - label.len()]);
        } else if i < start_end {
            assert(line[i] == dump_text(words)[i - start_dump]);
        } else {
            assert(line[i] == ending[i - start_end]);
        }
    }
    let start = lemma_line_in_text(before, line, rest);
    let parts = lines(before + line + rest);
    assert forall|j: int, at: int| 0 <= j < start.len() implies !occurs_at(
        parts[j],
        "BLOCK_KEY2"@,
        at,
    ) by {
        assert(parts[j] == parts.take(start.len() as int)[j]);
        lemma_front_lines_lack(before, "BLOCK_KEY2"@, j, at);
    }
    law_key_is_read_from_dump(parts, start.len() as int, label, key, ending);
}

/// Behind a label in which it does not stand, the mark `MAC:` is found at the end of the label.
proof fn lemma_mac_mark(label: Seq<char>, behind: Seq<char>)
    requires
        forall|at: int| !occurs_at(label, "MAC:"@, at),
    ensures
        find_in(label + "MAC:"@ + behind, "MAC:"@) == Some(label.len() as int),
        (label + "MAC:"@ + behind).skip(label.len() + 4int) == behind,
{
    reveal_strlit("MAC:");
    let mark = "MAC:"@;
    let line = label + mark + behind;
    let start = label.len() as int;
    assert(line.subrange(start, start + 4) =~= mark);
    assert forall|i: int| 0 <= i < start implies !occurs_at(line, mark, i) by {
        if occurs_at(line, mark, i) {
            let found = line.subrange(i, i + 4);
            if i + 4 <= start {
                assert(label.subrange(i, i + 4) =~= found);
                assert(occurs_at(label, mark, i));
            } else {
                assert(found[start - i] == line[start]);
                assert(line[start] == mark[0]);
                assert(mark[start - i] == 'M');
            }
        }
    }
    assert(first_at(line, mark, start));
    let at = find_in(line, mark)->0;
    assert(first_at(line, mark, at));
    assert(line.skip(start + 4) =~= behind);
}

/// A line gives an address if and only if what stands behind its first mark `MAC:`, without white
/// space at its ends and without colons, takes twelve bytes; that is the address.
pub proof fn law_mac_of_line(
    label: Seq<char>,
    blank1: Seq<char>,
    mac: Seq<char>,
    blank2: Seq<char>,
    line: Seq<char>,
)
    requires
        forall|at: int| !occurs_at(label, "MAC:"@, at),
        is_blank(blank1),
        is_blank(blank2),
        mac.len() > 0 ==> !white_space()(mac[0]) && !white_space()(mac.last()),
    ensures
        ({
            let address = mac_in_line(label + "MAC:"@ + (blank1 + mac + blank2));
            let plain = without_colons(mac);
            &&& encode_utf8(plain).len() == 12 ==> address == Some(plain)
            &&& encode_utf8(plain).len() != 12 ==> address is None
        }),
        (forall|at: int| !occurs_at(line, "MAC:"@, at)) ==> mac_in_line(line) is None,
        reported_mac()(line) == mac_in_line(line),
{
    lemma_mac_mark(label, blank1 + mac + blank2);
    law_trimming(blank1, mac, blank2);
    if forall|at: int| !occurs_at(line, "MAC:"@, at) {
        if exists|at: int| first_at(line, "MAC:"@, at) {
            let at = choose|at: int| first_at(line, "MAC:"@, at);
            assert(occurs_at(line, "MAC:"@, at));
        }
    }
}

/// Twelve digits in pairs with colons between them.
pub open spec fn colon_pairs(digits: Seq<char>) -> Seq<char> {
    Seq::new(
        17,
        |i: int|
            if i % 3 == 2 {
                ':'
            } else {
                digits[2 * (i / 3) + i % 3]
            },
    )
}

/// Without their colons, pairs are the digits.
proof fn lemma_pairs_without_colons(digits: Seq<char>, i: int)
    requires
        digits.len() == 12,
        forall|j: int| 0 <= j < 12 ==> digits[j] != ':',
        0 <= i <= 17,
    ensures
        without_colons(colon_pairs(digits).take(i)) == digits.take(2 * (i / 3) + i % 3),
    decreases i,
{
    let text = colon_pairs(digits);
    if i == 0 {
        law_without_colons(Seq::empty(), 'x');
        assert(text.take(0) =~= Seq::<char>::empty());
        assert(digits.take(0) =~= Seq::<char>::empty());
    } else {
        let j = i - 1;
        lemma_pairs_without_colons(digits, j);
        assert(text.take(i) =~= text.take(j).push(text[j]));
        law_without_colons(text.take(j), text[j]);
        let count = 2 * (j / 3) + j % 3;
        if j % 3 != 2 {
            assert(digits.take(count + 1) =~= digits.take(count).push(digits[count]));
        }
    }
}

/// A character in ASCII takes one byte.
proof fn lemma_ascii_width(c: char)
    requires
        c <= '\u{7f}',
    ensures
        encode_scalar(c as u32).len() == 1,
{
}

/// Text in ASCII takes one byte for each character.
proof fn lemma_ascii_len(text: Seq<char>)
    requires
        forall|i: int| 0 <= i < text.len() ==> #[trigger] text[i] <= '\u{7f}',
    ensures
        encode_utf8(text).len() == text.len(),
    decreases text.len(),
{
    if text.len() > 0 {
        let rest = text.drop_first();
        assert forall|i: int| 0 <= i < rest.len() implies #[trigger] rest[i] <= '\u{7f}' by {
            assert(rest[i] == text[i + 1]);
        }
        lemma_ascii_len(rest);
        lemma_ascii_width(text[0]);
    }
}

/// A line with pairs of digits gives the digits.
proof fn lemma_pairs_give_address(
    label: Seq<char>,
    blank1: Seq<char>,
    digits: Seq<char>,
    blank2: Seq<char>,
)
    requires
        digits.len() == 12,
        forall|i: int|
            0 <= i < 12 ==> '!' <= #[trigger] digits[i] && digits[i] <= '~' && digits[i] != ':',
        is_blank(blank1),
        is_blank(blank2),
        forall|at: int| !occurs_at(label, "MAC:"@, at),
    ensures
        reported_mac()(label + "MAC:"@ + (blank1 + colon_pairs(digits) + blank2)) == Some(digits),
{
    let mac = colon_pairs(digits);
    lemma_pairs_without_colons(digits, 17);
    assert(mac.take(17) =~= mac);
    assert(digits.take(12) =~= digits);
    lemma_ascii_len(digits);
    assert(mac[0] == digits[0]);
    assert(mac.last() == digits[11]);
    law_mac_of_line(
        label,
        blank1,
        mac,
        blank2,
        label + "MAC:"@ + (blank1 + mac + blank2),
    );
}

/// A line with pairs of digits holds no line feed unless its label or its white space does.
proof fn lemma_mac_line_has_no_line_feed(
    label: Seq<char>,
    blank1: Seq<char>,
    digits: Seq<char>,
    blank2: Seq<char>,
)
    requires
        digits.len() == 12,
        forall|i: int| 0 <= i < 12 ==> '!' <= #[trigger] digits[i],
        forall|i: int| 0 <= i < label.len() ==> label[i] != '\n',
        forall|i: int| 0 <= i < blank1.len() ==> blank1[i] != '\n',
        forall|i: int| 0 <= i < blank2.len() ==> blank2[i] != '\n',
    ensures
        ({
            let line = label + "MAC:"@ + (blank1 + colon_pairs(digits) + blank2);
            forall|i: int| 0 <= i < line.len() ==> line[i] != '\n'
        }),
{
    reveal_strlit("MAC:");
    let mac = colon_pairs(digits);
    let line = label + "MAC:"@ + (blank1 + mac + blank2);
    let a = label.len() + 4;
    let b = a + blank1.len();
    assert forall|j: int| 0 <= j < 17 implies mac[j] != '\n' by {
        if j % 3 != 2 {
            assert(mac[j] == digits[2 * (j / 3) + j % 3]);
        }
    }
    assert forall|i: int| 0 <= i < line.len() implies line[i] != '\n' by {
        if i < label.len() {
            assert(line[i] == label[i]);
        } else if i < a {
            assert(line[i] == "MAC:"@[i - label.len()]);
        } else if i < b {
            assert(line[i] == blank1[i - a]);
        } else if i < b + 17 {
            assert(line[i] == mac[i - b]);
        } else {
            assert(line[i] == blank2[i - b - 17]);
        }
    }
}

/// From a report the address is read, wherever its line stands, if no line before it has the mark:
/// twelve characters in pairs with colons between them give the twelve characters.
pub proof fn law_mac_is_read_from_text(
    before: Seq<char>,
    label: Seq<char>,
    blank1: Seq<char>,
    digits: Seq<char>,
    blank2: Seq<char>,
    rest: Seq<char>,
)
    requires
        digits.len() == 12,
        forall|i: int|
            0 <= i < 12 ==> '!' <= #[trigger] digits[i] && digits[i] <= '~' && digits[i] != ':',
        is_blank(blank1),
        is_blank(blank2),
        forall|at: int| !occurs_at(label, "MAC:"@, at),
        forall|i: int| 0 <= i < label.len() ==> label[i] != '\n',
        forall|i: int| 0 <= i < blank1.len() ==> blank1[i] != '\n',
        forall|i: int| 0 <= i < blank2.len() ==> blank2[i] != '\n',
        before.len() == 0 || before.last() == '\n',
        forall|at: int| !occurs_at(before, "MAC:"@, at),
        rest.len() == 0 || rest[0] == '\n',
    ensures
        first_found(
            lines(
                before + (label + "MAC:"@ + (blank1 + colon_pairs(digits) + blank2)) + rest,
            ),
            reported_mac(),
        ) == Some(digits),
{
    let mac = colon_pairs(digits);
    let line = label + "MAC:"@ + (blank1 + mac + blank2);
    lemma_pairs_give_address(label, blank1, digits, blank2);
    lemma_mac_line_has_no_line_feed(label, blank1, digits, blank2);
    let start = lemma_line_in_text(before, line, rest);
    let parts = lines(before + line + rest);
    assert forall|j: int| 0 <= j < start.len() implies reported_mac()(#[trigger] parts[j])
        is None by {
        assert(parts[j] == parts.take(start.len() as int)[j]);
        assert forall|at: int| !occurs_at(parts[j], "MAC:"@, at) by {
            lemma_front_lines_lack(before, "MAC:"@, j, at);
        }
        law_mac_of_line(label, Seq::empty(), Seq::empty(), Seq::empty(), parts[j]);
    }
    law_first_line_counts(parts, reported_mac(), start.len() as int);
}

/// A failure is reported with the task at which the tool failed and with all that it says, and
/// only if it failed; bytes in UTF-8 are read as they are.
pub proof fn law_failure_tells(e: ToolError, task: Task, output: ToolOutput)
    ensures
        is_failure(e, task, output) ==> !output.success && e is Failed && e->task == task
            && e->stderr@ == lossy_text_of(output.stderr@),
        task.failure_label() == match task {
            Task::Flash => "esptool failed: "@,
            Task::Burn => "espefuse failed: "@,
            Task::Dump => "espefuse dump failed: "@,
            Task::ReadMac => "esptool read-mac failed: "@,
        },
        reads_utf8(output.stderr@) && valid_utf8(output.stderr@) ==> lossy_text_of(output.stderr@)
            == decode_utf8(output.stderr@),
{
}

/// A run saves the image first, whatever else it is told to do.
pub proof fn law_image_is_saved_first(options: Options)
    ensures
        deliveries_of(options).len() > 0,
        deliveries_of(options)[0] == ActionView::SaveImage(image_destination(options)),
{
}

/// Without a port a run leaves the device alone, and says so where it was told otherwise.
pub proof fn law_no_port_no_device(options: Options, i: int)
    requires
        options.port is None,
        0 <= i < deliveries_of(options).len(),
    ensures
        !(deliveries_of(options)[i] is Flash),
        !(deliveries_of(options)[i] is Burn),
        options.flash ==> deliveries_of(options).contains(ActionView::FlashNeedsPort),
        options.burn_efuse ==> deliveries_of(options).contains(ActionView::BurnNeedsPort),
{
    let all = deliveries_of(options);
    let saved = if options.hmac_key_output is Some {
        2int
    } else {
        1int
    };
    if options.flash {
        assert(all[saved] == ActionView::FlashNeedsPort);
    }
    if options.burn_efuse {
        assert(all.last() == ActionView::BurnNeedsPort);
    }
}

/// A key that a run burns was saved to a file before.
pub proof fn law_burned_key_is_on_file(options: Options, i: int)
    requires
        0 <= i < deliveries_of(options).len(),
        deliveries_of(options)[i] is Burn,
    ensures
        deliveries_of(options)[1] is SaveKey,
        i > 1,
{
}

} // verus!
