//! Characters, lines, words and numbers, told by their characters.
use vstd::prelude::*;

use crate::extract::column;
use crate::laws::scan::{is_blank, is_word, lemma_words_blank, lemma_words_first, lemma_words_skip};
use crate::text::{
    decimal, drop_return, find, find_space, lemma_find, lemma_find_space,
    lemma_lines_of_line_and_rest, lemma_prefix_bytes, lemma_skip_space, lines, option_view,
    skip_space, stands_at, views, white_space, words,
};

verus! {

/// The code points of white space: the controls from tab to carriage return, the
/// blank, next line, and the spaces and separators of Unicode.
pub open spec fn blank(c: char) -> bool {
    let code = c as u32;
    ||| 9 <= code <= 13
    ||| code == 32
    ||| code == 133
    ||| code == 160
    ||| code == 5760
    ||| 8192 <= code <= 8202
    ||| code == 8232
    ||| code == 8233
    ||| code == 8239
    ||| code == 8287
    ||| code == 12288
}

/// White space is told by its code points.
pub proof fn law_white_space(c: char)
    ensures
        white_space(c) <==> blank(c),
{
}

/// A pattern stands where all its characters do.
pub proof fn law_stands_at(s: Seq<char>, at: int, p: Seq<char>)
    ensures
        stands_at(s, at, p) <==> {
            &&& 0 <= at
            &&& at + p.len() <= s.len()
            &&& forall|i: int| 0 <= i < p.len() ==> s[at + i] == #[trigger] p[i]
        },
{
    if 0 <= at && at + p.len() <= s.len() {
        let part = s.subrange(at, at + p.len());
        if stands_at(s, at, p) {
            assert forall|i: int| 0 <= i < p.len() implies s[at + i] == #[trigger] p[i] by {
                assert(part[i] == s[at + i]);
            }
        }
        if forall|i: int| 0 <= i < p.len() ==> s[at + i] == #[trigger] p[i] {
            assert(part =~= p);
        }
    }
}

/// A search ends at the first match from its start on, or at the end.
pub proof fn law_searches(s: Seq<char>, c: char, from: int, at: int)
    requires
        0 <= from <= at <= s.len(),
    ensures
        find(s, c, from) == at <==> (at < s.len() ==> s[at] == c) && forall|i: int|
            from <= i < at ==> #[trigger] s[i] != c,
        find_space(s, from) == at <==> (at < s.len() ==> blank(s[at])) && forall|i: int|
            from <= i < at ==> !blank(#[trigger] s[i]),
        skip_space(s, from) == at <==> (at < s.len() ==> !blank(s[at])) && forall|i: int|
            from <= i < at ==> blank(#[trigger] s[i]),
{
    assert forall|c: char| #[trigger] white_space(c) <==> blank(c) by {
        law_white_space(c);
    }
    lemma_find(s, c, from);
    lemma_find_space(s, from);
    lemma_skip_space(s, from);
    let f = find(s, c, from);
    let g = find_space(s, from);
    let h = skip_space(s, from);
    assert forall|i: int| from <= i < g implies !blank(#[trigger] s[i]) by {
        assert(!white_space(s[i]));
    }
    assert forall|i: int| from <= i < h implies blank(#[trigger] s[i]) by {
        assert(white_space(s[i]));
    }
    if f < s.len() {
        assert(s[f] == c);
    }
    if g < s.len() {
        assert(white_space(s[g]));
    }
    if h < s.len() {
        assert(!white_space(s[h]));
    }
    if at < s.len() {
        assert(white_space(s[at]) <==> blank(s[at]));
    }
}

/// Text without a line feed is one line, and no text none. A line feed ends a
/// line, and so does a carriage return before it.
pub proof fn law_lines(line: Seq<char>, rest: Seq<char>)
    requires
        forall|i: int| 0 <= i < line.len() ==> #[trigger] line[i] != '\n',
    ensures
        lines(Seq::<char>::empty()).len() == 0,
        line.len() > 0 ==> lines(line) == seq![line],
        lines(line + seq!['\r', '\n'] + rest) == seq![line] + lines(rest),
        (line.len() > 0 ==> line.last() != '\r') ==> lines(line + seq!['\n'] + rest) == seq![line]
            + lines(rest),
{
    lemma_find(line, '\n', 0);
    if find(line, '\n', 0) < line.len() {
        assert(line[find(line, '\n', 0)] == '\n');
    }
    let more = line.push('\r');
    assert forall|i: int| 0 <= i < more.len() implies #[trigger] more[i] != '\n' by {
        if i < line.len() {
            assert(more[i] == line[i]);
        }
    }
    lemma_lines_of_line_and_rest(more, rest);
    assert(more.push('\n') + rest =~= line + seq!['\r', '\n'] + rest);
    assert(drop_return(more) =~= line);
    lemma_lines_of_line_and_rest(line, rest);
    assert(line.push('\n') + rest =~= line + seq!['\n'] + rest);
}

/// White space holds no words. A run of other characters that white space or the
/// end follows is the first word, and the others come after it.
pub proof fn law_words(gap: Seq<char>, word: Seq<char>, rest: Seq<char>)
    requires
        forall|i: int| 0 <= i < gap.len() ==> blank(#[trigger] gap[i]),
        word.len() > 0,
        forall|i: int| 0 <= i < word.len() ==> !blank(#[trigger] word[i]),
        rest.len() > 0 ==> blank(rest[0]),
    ensures
        words(gap).len() == 0,
        words(gap + (word + rest)) == seq![word] + words(rest),
{
    assert forall|c: char| #[trigger] white_space(c) <==> blank(c) by {
        law_white_space(c);
    }
    assert(is_blank(gap));
    assert(is_word(word));
    if rest.len() > 0 {
        assert(white_space(rest[0]));
    }
    lemma_words_blank(gap);
    lemma_words_skip(gap, word + rest);
    lemma_words_first(word, rest);
}

/// The number that decimal digits stand for.
pub open spec fn value(digits: Seq<char>) -> int
    decreases digits.len(),
{
    if digits.len() == 0 {
        0
    } else {
        10 * value(digits.drop_last()) + (digits.last() as u32 - 48)
    }
}

/// A number is written in digits from 0 to 9, without leading zeros, and they
/// stand for it.
pub proof fn law_decimal(n: int)
    requires
        0 <= n,
    ensures
        value(decimal(n)) == n,
        decimal(n).len() > 0,
        decimal(n).len() > 1 ==> decimal(n)[0] != '0',
        forall|i: int| 0 <= i < decimal(n).len() ==> '0' <= #[trigger] decimal(n)[i] <= '9',
    decreases n,
{
    if n < 10 {
        assert(decimal(n).drop_last() =~= seq![]);
        assert(value(decimal(n).drop_last()) == 0);
    } else {
        law_decimal(n / 10);
        assert(decimal(n).drop_last() =~= decimal(n / 10));
        if n < 100 {
            assert(decimal(n / 10).len() == 1);
            assert(value(decimal(n / 10)) == n / 10);
            assert(decimal(n / 10).drop_last() =~= seq![]);
            assert(value(decimal(n / 10).drop_last()) == 0);
            assert(decimal(n)[0] == decimal(n / 10)[0]);
        } else {
            assert(decimal(n)[0] == decimal(n / 10)[0]);
            law_decimal(n / 10 / 10);
            assert(decimal(n / 10).len() > 1);
        }
    }
}

/// The columns of a line count bytes, from 1 on: a character takes one, two,
/// three or four, as its code point says.
pub proof fn law_columns(s: Seq<char>, at: int)
    requires
        0 <= at < s.len(),
    ensures
        column(s, 0) == 1,
        column(s, at + 1) == column(s, at) + (if (s[at] as u32) < 128 {
            1int
        } else if (s[at] as u32) < 2048 {
            2
        } else if (s[at] as u32) < 65536 {
            3
        } else {
            4
        }),
{
    lemma_prefix_bytes(s, at);
    assert(s.take(0) =~= seq![]);
    assert(vstd::utf8::encode_utf8(seq![]).len() == 0);
}

/// The views of items are theirs, one by one.
pub proof fn law_views<T: View>(s: Seq<T>, i: int)
    requires
        0 <= i < s.len(),
    ensures
        views(s).len() == s.len(),
        views(s)[i] == s[i]@,
        option_view(Some(s[i])) == Some(s[i]@),
        option_view(None::<T>) is None,
{
}

} // verus!
