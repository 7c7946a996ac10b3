//! Characters, lines, words and decimal numbers.
//!
//! Text is modelled by the sequence of its characters, the view of `str` and
//! `String`. The functions here work on vectors of characters, so that a
//! position is an index into that sequence.
use vstd::prelude::*;
use vstd::utf8::encode_utf8;

verus! {

/// `String::push` appends the given character to the end of the string.
pub assume_specification[ String::push ](s: &mut String, c: char)
    ensures
        final(s)@ == old(s)@.push(c),
;

/// The views of the items of `s`, in order.
pub open spec fn views<T: View>(s: Seq<T>) -> Seq<T::V> {
    Seq::new(s.len(), |i: int| s[i]@)
}

/// The view of an optional value.
pub open spec fn option_view<T: View>(o: Option<T>) -> Option<T::V> {
    match o {
        Some(v) => Some(v@),
        None => None,
    }
}

/// The characters with the Unicode property `White_Space`.
pub open spec fn white_space(c: char) -> bool {
    ||| '\u{9}' <= c <= '\u{d}'
    ||| c == ' '
    ||| c == '\u{85}'
    ||| c == '\u{a0}'
    ||| c == '\u{1680}'
    ||| '\u{2000}' <= c <= '\u{200a}'
    ||| c == '\u{2028}'
    ||| c == '\u{2029}'
    ||| c == '\u{202f}'
    ||| c == '\u{205f}'
    ||| c == '\u{3000}'
}

/// The first position at or after `from` that holds `c`, or the length of `s`
/// where none does.
pub open spec fn find(s: Seq<char>, c: char, from: int) -> int
    decreases s.len() - from,
{
    if from >= s.len() {
        s.len() as int
    } else if s[from] == c {
        from
    } else {
        find(s, c, from + 1)
    }
}

/// The first position at or after `from` that holds white space, or the length
/// of `s` where none does.
pub open spec fn find_space(s: Seq<char>, from: int) -> int
    decreases s.len() - from,
{
    if from >= s.len() {
        s.len() as int
    } else if white_space(s[from]) {
        from
    } else {
        find_space(s, from + 1)
    }
}

/// The first position at or after `from` that does not hold white space, or
/// the length of `s` where none is left.
pub open spec fn skip_space(s: Seq<char>, from: int) -> int
    decreases s.len() - from,
{
    if from >= s.len() {
        s.len() as int
    } else if white_space(s[from]) {
        skip_space(s, from + 1)
    } else {
        from
    }
}

/// `p` stands in `s` at position `at`.
pub open spec fn stands_at(s: Seq<char>, at: int, p: Seq<char>) -> bool {
    &&& 0 <= at
    &&& at + p.len() <= s.len()
    &&& s.subrange(at, at + p.len()) == p
}

/// `s` without a carriage return at its end.
pub open spec fn drop_return(s: Seq<char>) -> Seq<char> {
    if s.len() > 0 && s.last() == '\r' {
        s.drop_last()
    } else {
        s
    }
}

/// The lines of `s`: what stands between line feeds, without the carriage
/// return of a `"\r\n"`. A line feed at the very end starts no further line.
pub open spec fn lines(s: Seq<char>) -> Seq<Seq<char>>
    decreases s.len(),
    via lines_decreases
{
    if s.len() == 0 {
        seq![]
    } else {
        let end = find(s, '\n', 0);
        if end < s.len() {
            seq![drop_return(s.take(end))] + lines(s.skip(end + 1))
        } else {
            seq![s]
        }
    }
}

#[via_fn]
proof fn lines_decreases(s: Seq<char>) {
    lemma_find(s, '\n', 0);
}

/// The words of `s`: its longest runs without white space.
pub open spec fn words(s: Seq<char>) -> Seq<Seq<char>>
    decreases s.len(),
    via words_decreases
{
    if s.len() == 0 {
        seq![]
    } else if white_space(s[0]) {
        words(s.skip(1))
    } else {
        let end = find_space(s, 0);
        seq![s.take(end)] + words(s.skip(end))
    }
}

#[via_fn]
proof fn words_decreases(s: Seq<char>) {
    if s.len() > 0 && !white_space(s[0]) {
        lemma_find_space(s, 1);
    }
}

/// The character for the digit `d`.
pub open spec fn digit(d: int) -> char {
    ('0' as int + d) as char
}

/// `n` in decimal notation.
pub open spec fn decimal(n: int) -> Seq<char>
    decreases n,
{
    if n < 10 {
        seq![digit(n)]
    } else {
        decimal(n / 10).push(digit(n % 10))
    }
}

/// `find` is the least position from `from` on that holds the character.
pub proof fn lemma_find(s: Seq<char>, c: char, from: int)
    requires
        0 <= from <= s.len(),
    ensures
        from <= find(s, c, from) <= s.len(),
        find(s, c, from) < s.len() ==> s[find(s, c, from)] == c,
        forall|i: int| from <= i < find(s, c, from) ==> s[i] != c,
    decreases s.len() - from,
{
    if from < s.len() && s[from] != c {
        lemma_find(s, c, from + 1);
    }
}

/// `find_space` is the least position from `from` on that holds white space.
pub proof fn lemma_find_space(s: Seq<char>, from: int)
    requires
        0 <= from <= s.len(),
    ensures
        from <= find_space(s, from) <= s.len(),
        find_space(s, from) < s.len() ==> white_space(s[find_space(s, from)]),
        forall|i: int| from <= i < find_space(s, from) ==> !white_space(s[i]),
    decreases s.len() - from,
{
    if from < s.len() && !white_space(s[from]) {
        lemma_find_space(s, from + 1);
    }
}

/// `skip_space` is the least position from `from` on without white space.
pub proof fn lemma_skip_space(s: Seq<char>, from: int)
    requires
        0 <= from <= s.len(),
    ensures
        from <= skip_space(s, from) <= s.len(),
        skip_space(s, from) < s.len() ==> !white_space(s[skip_space(s, from)]),
        forall|i: int| from <= i < skip_space(s, from) ==> white_space(s[i]),
    decreases s.len() - from,
{
    if from < s.len() && white_space(s[from]) {
        lemma_skip_space(s, from + 1);
    }
}

/// What precedes `k` does not matter to a search that starts there.
pub proof fn lemma_find_skip(s: Seq<char>, c: char, k: int, from: int)
    requires
        0 <= k <= s.len(),
        0 <= from <= s.len() - k,
    ensures
        find(s.skip(k), c, from) == find(s, c, k + from) - k,
    decreases s.len() - k - from,
{
    if from < s.len() - k && s[k + from] != c {
        lemma_find_skip(s, c, k, from + 1);
    }
}

/// A line never holds a line feed.
pub proof fn lemma_lines_hold_no_line_feed(s: Seq<char>)
    ensures
        forall|k: int, i: int|
            0 <= k < lines(s).len() && 0 <= i < lines(s)[k].len() ==> lines(s)[k][i] != '\n',
    decreases s.len(),
{
    if s.len() > 0 {
        lemma_find(s, '\n', 0);
        let end = find(s, '\n', 0);
        if end < s.len() {
            let rest = s.skip(end + 1);
            lemma_lines_hold_no_line_feed(rest);
            assert forall|k: int, i: int|
                0 <= k < lines(s).len() && 0 <= i < lines(s)[k].len() implies lines(s)[k][i] != '\n' by {
                if k > 0 {
                    assert(lines(s)[k] == lines(rest)[k - 1]);
                }
            }
        }
    }
}

/// Text has no more lines than characters.
pub proof fn lemma_lines_len(s: Seq<char>)
    ensures
        lines(s).len() <= s.len(),
    decreases s.len(),
{
    if s.len() > 0 {
        lemma_find(s, '\n', 0);
        if find(s, '\n', 0) < s.len() {
            lemma_lines_len(s.skip(find(s, '\n', 0) + 1));
        }
    }
}

/// A line feed ends the line before it, and what follows are the lines after.
pub proof fn lemma_lines_of_line_and_rest(line: Seq<char>, rest: Seq<char>)
    requires
        forall|i: int| 0 <= i < line.len() ==> line[i] != '\n',
    ensures
        lines(line.push('\n') + rest) == seq![drop_return(line)] + lines(rest),
{
    let s = line.push('\n') + rest;
    lemma_find(s, '\n', 0);
    let end = find(s, '\n', 0);
    assert(s[line.len() as int] == '\n');
    if end < line.len() {
        assert(s[end] == line[end]);
    }
    assert(end == line.len());
    assert(s.take(end) == line);
    assert(s.skip(end + 1) == rest);
}

/// Encoding one more character adds its bytes at the end.
proof fn lemma_encode_push(s: Seq<char>, c: char)
    ensures
        encode_utf8(s.push(c)) == encode_utf8(s) + encode_utf8(seq![c]),
    decreases s.len(),
{
    reveal_with_fuel(encode_utf8, 2);
    if s.len() == 0 {
        assert(s.push(c) == seq![c]);
        assert(encode_utf8(s) == Seq::<u8>::empty());
    } else {
        lemma_encode_push(s.drop_first(), c);
        assert(s.push(c).drop_first() == s.drop_first().push(c));
    }
}

/// The number of bytes of a character.
pub open spec fn char_bytes(c: char) -> int {
    if c as u32 <= 0x7f {
        1
    } else if c as u32 <= 0x7ff {
        2
    } else if c as u32 <= 0xffff {
        3
    } else {
        4
    }
}

/// A longer prefix has more bytes.
pub proof fn lemma_prefix_bytes(s: Seq<char>, i: int)
    requires
        0 <= i < s.len(),
    ensures
        encode_utf8(s.take(i + 1)).len() == encode_utf8(s.take(i)).len() + char_bytes(s[i]),
{
    let one = seq![s[i]];
    lemma_encode_push(s.take(i), s[i]);
    assert(s.take(i).push(s[i]) == s.take(i + 1));
    reveal_with_fuel(encode_utf8, 2);
    assert(one.drop_first() == Seq::<char>::empty());
    vstd::utf8::char_is_scalar(s[i]);
    assert(encode_utf8(one).len() == char_bytes(s[i]));
}

/// The bytes of a prefix increase with its length.
pub proof fn lemma_prefix_bytes_increase(s: Seq<char>, i: int, j: int)
    requires
        0 <= i < j <= s.len(),
    ensures
        encode_utf8(s.take(i)).len() < encode_utf8(s.take(j)).len(),
    decreases j - i,
{
    lemma_prefix_bytes(s, j - 1);
    if i < j - 1 {
        lemma_prefix_bytes_increase(s, i, j - 1);
    }
}

/// Whether `c` is white space.
pub fn is_whitespace(c: char) -> (r: bool)
    ensures
        r == white_space(c),
{
    ('\u{9}' <= c && c <= '\u{d}') || c == ' ' || c == '\u{85}' || c == '\u{a0}' || c == '\u{1680}'
        || ('\u{2000}' <= c && c <= '\u{200a}') || c == '\u{2028}' || c == '\u{2029}' || c
        == '\u{202f}' || c == '\u{205f}' || c == '\u{3000}'
}

/// The characters of `text`, in order.
pub fn chars_of(text: &str) -> (chars: Vec<char>)
    ensures
        chars@ == text@,
{
    let mut chars: Vec<char> = Vec::new();
    for c in it: text.chars()
        invariant
            chars@ == it.seq().take(it.index()),
            it.seq() == text@,
    {
        chars.push(c);
        assert(it.seq().take(it.index() + 1) == it.seq().take(it.index()).push(c));
    }
    chars
}

/// The characters from position `from` up to, not including, `to`.
pub fn substring(chars: &Vec<char>, from: usize, to: usize) -> (s: String)
    requires
        from <= to <= chars@.len(),
    ensures
        s@ == chars@.subrange(from as int, to as int),
{
    let mut s = String::new();
    let mut i: usize = from;
    while i < to
        invariant
            from <= i <= to <= chars@.len(),
            s@ == chars@.subrange(from as int, i as int),
        decreases to - i,
    {
        s.push(chars[i]);
        i += 1;
        assert(chars@.subrange(from as int, i as int) == chars@.subrange(from as int, i - 1).push(
            chars@[i - 1],
        ));
    }
    s
}

/// The position of the first `c` from `from` on, or the number of characters.
pub fn find_char(chars: &Vec<char>, c: char, from: usize) -> (at: usize)
    requires
        from <= chars@.len(),
    ensures
        at == find(chars@, c, from as int),
        from <= at <= chars@.len(),
{
    let mut i: usize = from;
    while i < chars.len() && chars[i] != c
        invariant
            from <= i <= chars@.len(),
            find(chars@, c, from as int) == find(chars@, c, i as int),
        decreases chars@.len() - i,
    {
        i += 1;
    }
    i
}

/// The position of the first white space from `from` on, or the number of
/// characters.
pub fn find_whitespace(chars: &Vec<char>, from: usize) -> (at: usize)
    requires
        from <= chars@.len(),
    ensures
        at == find_space(chars@, from as int),
        from <= at <= chars@.len(),
{
    let mut i: usize = from;
    while i < chars.len() && !is_whitespace(chars[i])
        invariant
            from <= i <= chars@.len(),
            find_space(chars@, from as int) == find_space(chars@, i as int),
        decreases chars@.len() - i,
    {
        i += 1;
    }
    i
}

/// The position of the first character from `from` on that is not white space,
/// or the number of characters.
pub fn skip_whitespace(chars: &Vec<char>, from: usize) -> (at: usize)
    requires
        from <= chars@.len(),
    ensures
        at == skip_space(chars@, from as int),
        from <= at <= chars@.len(),
{
    let mut i: usize = from;
    while i < chars.len() && is_whitespace(chars[i])
        invariant
            from <= i <= chars@.len(),
            skip_space(chars@, from as int) == skip_space(chars@, i as int),
        decreases chars@.len() - i,
    {
        i += 1;
    }
    i
}

/// Whether `pattern` stands at position `at`.
pub fn matches_at(chars: &Vec<char>, at: usize, pattern: &str) -> (r: bool)
    ensures
        r == stands_at(chars@, at as int, pattern@),
{
    let wanted = chars_of(pattern);
    if at > chars.len() || wanted.len() > chars.len() - at {
        return false;
    }
    let mut k: usize = 0;
    while k < wanted.len()
        invariant
            at + wanted.len() <= chars.len(),
            wanted@ == pattern@,
            k <= wanted@.len(),
            forall|i: int| 0 <= i < k ==> chars@[at + i] == wanted@[i],
        decreases wanted@.len() - k,
    {
        if chars[at + k] != wanted[k] {
            assert(chars@.subrange(at as int, at + wanted@.len())[k as int] != wanted@[k as int]);
            return false;
        }
        k += 1;
    }
    assert(chars@.subrange(at as int, at + wanted@.len()) =~= wanted@);
    true
}

/// The lines of `text`.
pub fn split_lines(text: &str) -> (out: Vec<String>)
    ensures
        views(out@) == lines(text@),
{
    let chars = chars_of(text);
    let mut out: Vec<String> = Vec::new();
    let mut start: usize = 0;
    assert(chars@.skip(0) == chars@);
    while start < chars.len()
        invariant
            start <= chars@.len(),
            lines(chars@) == views(out@) + lines(chars@.skip(start as int)),
        decreases chars@.len() - start,
    {
        let end = find_char(&chars, '\n', start);
        let ghost before = views(out@);
        let ghost rest = chars@.skip(start as int);
        proof {
            lemma_find_skip(chars@, '\n', start as int, 0);
            lemma_find(chars@, '\n', start as int);
        }
        if end == chars.len() {
            out.push(substring(&chars, start, end));
            assert(chars@.subrange(start as int, end as int) == rest);
            assert(chars@.skip(end as int).len() == 0);
            assert(lines(rest) == seq![rest]);
            assert(views(out@) == before.push(rest));
            assert(before + seq![rest] == before.push(rest) + lines(chars@.skip(end as int)));
            start = end;
        } else {
            let mut cut: usize = end;
            if end > start && chars[end - 1] == '\r' {
                cut = end - 1;
            }
            out.push(substring(&chars, start, cut));
            let ghost line = drop_return(rest.take(end - start));
            assert(chars@.subrange(start as int, cut as int) == line);
            assert(rest.skip(end - start + 1) == chars@.skip(end + 1));
            assert(views(out@) == before.push(line));
            assert(before + (seq![line] + lines(chars@.skip(end + 1))) == before.push(line) + lines(
                chars@.skip(end + 1),
            ));
            start = end + 1;
        }
    }
    assert(chars@.skip(start as int).len() == 0);
    out
}

/// The number of lines of `text`.
pub fn count_lines(text: &str) -> (n: usize)
    ensures
        n == lines(text@).len(),
{
    let out = split_lines(text);
    assert(views(out@).len() == out@.len());
    out.len()
}

/// The words of the characters from `from` up to, not including, `to`.
pub fn split_tokens(chars: &Vec<char>, from: usize, to: usize) -> (out: Vec<String>)
    requires
        from <= to <= chars@.len(),
    ensures
        views(out@) == words(chars@.subrange(from as int, to as int)),
{
    let ghost s = chars@.subrange(from as int, to as int);
    let mut out: Vec<String> = Vec::new();
    let mut i: usize = from;
    assert(s.skip(0) == s);
    while i < to
        invariant
            from <= i <= to <= chars@.len(),
            s == chars@.subrange(from as int, to as int),
            words(s) == views(out@) + words(s.skip(i - from)),
        decreases to - i,
    {
        let ghost rest = s.skip(i - from);
        let ghost before = views(out@);
        if is_whitespace(chars[i]) {
            i += 1;
            assert(rest.skip(1) == s.skip(i - from));
        } else {
            let start = i;
            i += 1;
            while i < to && !is_whitespace(chars[i])
                invariant
                    from <= start < i <= to <= chars@.len(),
                    s == chars@.subrange(from as int, to as int),
                    rest == s.skip(start - from),
                    find_space(rest, 0) == find_space(rest, i - start),
                decreases to - i,
            {
                i += 1;
            }
            out.push(substring(chars, start, i));
            let ghost word = rest.take(i - start);
            assert(chars@.subrange(start as int, i as int) == word);
            assert(rest.skip(i - start) == s.skip(i - from));
            assert(views(out@) == before.push(word));
            assert(before + (seq![word] + words(s.skip(i - from))) == before.push(word) + words(
                s.skip(i - from),
            ));
        }
    }
    assert(s.skip(to - from).len() == 0);
    out
}

/// `n` in decimal notation.
pub fn decimal_string(n: usize) -> (s: String)
    ensures
        s@ == decimal(n as int),
    decreases n,
{
    let last = (48u8 + (n % 10) as u8) as char;
    let mut s = if n < 10 {
        String::new()
    } else {
        decimal_string(n / 10)
    };
    s.push(last);
    s
}

} // verus!
