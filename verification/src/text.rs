//! Text as a sequence of characters: white space, lines and words.

use itertools::Itertools;
use vstd::prelude::*;
use vstd::std_specs::iter::IteratorSpec;

verus! {

/// Whether `c` is white space: one of the characters to which Unicode gives
/// the property `White_Space`.
pub open spec fn is_space(c: char) -> bool {
    ||| '\u{9}' <= c <= '\u{d}'
    ||| c == ' '
    ||| c == '\u{85}'
    ||| c == '\u{a0}'
    ||| c == '\u{1680}'
    ||| '\u{2000}' <= c <= '\u{200a}'
    ||| c == '\u{2028}'
    ||| c == '\u{2029}'
    ||| c == '\u{202f}'
    ||| c == '\u{205f}'
    ||| c == '\u{3000}'
}

/// The lines of `text`: the pieces into which its line feeds cut it, in
/// order. The last line is empty where the text is empty or ends in a line
/// feed.
pub open spec fn lines(text: Seq<char>) -> Seq<Seq<char>>
    decreases text.len(),
{
    if text.len() == 0 {
        seq![Seq::<char>::empty()]
    } else {
        let before = lines(text.drop_last());
        if text.last() == '\n' {
            before.push(Seq::empty())
        } else {
            before.drop_last().push(before.last().push(text.last()))
        }
    }
}

/// The words of `line`: its maximal runs of characters that are not white
/// space, in order.
pub open spec fn words(line: Seq<char>) -> Seq<Seq<char>>
    decreases line.len(),
{
    if line.len() == 0 {
        Seq::empty()
    } else {
        let before = words(line.drop_last());
        if is_space(line.last()) {
            before
        } else if line.len() >= 2 && !is_space(line[line.len() - 2]) {
            before.drop_last().push(before.last().push(line.last()))
        } else {
            before.push(seq![line.last()])
        }
    }
}

/// The views of the strings of `v`, in order.
pub open spec fn texts(v: Seq<String>) -> Seq<Seq<char>> {
    Seq::new(v.len(), |i: int| v[i]@)
}

/// Whether `word` is a word: it has a character, and none of its characters
/// is white space.
pub open spec fn is_word(word: Seq<char>) -> bool {
    &&& word.len() > 0
    &&& forall|k: int| 0 <= k < word.len() ==> !is_space(#[trigger] word[k])
}

/// The texts `parts` in a row, with `sep` between each two neighbours.
pub open spec fn joined(parts: Seq<Seq<char>>, sep: Seq<char>) -> Seq<char>
    decreases parts.len(),
{
    if parts.len() == 0 {
        Seq::empty()
    } else if parts.len() == 1 {
        parts[0]
    } else {
        joined(parts.drop_last(), sep) + sep + parts.last()
    }
}

/// The digit `d` as a text.
pub open spec fn digit(d: nat) -> Seq<char> {
    "0123456789"@.subrange(d as int, d as int + 1)
}

/// The number `n` in decimal digits.
pub open spec fn decimal(n: nat) -> Seq<char>
    decreases n,
{
    if n < 10 {
        digit(n)
    } else {
        decimal(n / 10) + digit(n % 10)
    }
}

/// How many line feeds `text` holds.
pub open spec fn line_feeds(text: Seq<char>) -> nat {
    text.filter(|c: char| c == '\n').len()
}

/// A text always has a last line.
pub proof fn lemma_lines_nonempty(text: Seq<char>)
    ensures
        lines(text).len() >= 1,
    decreases text.len(),
{
    if text.len() > 0 {
        lemma_lines_nonempty(text.drop_last());
    }
}

/// A text has one line more than it has line feeds.
pub proof fn lemma_lines_count(text: Seq<char>)
    ensures
        lines(text).len() == line_feeds(text) + 1,
    decreases text.len(),
{
    reveal(Seq::filter);
    if text.len() > 0 {
        lemma_lines_count(text.drop_last());
        lemma_lines_nonempty(text.drop_last());
    }
}

/// No line holds a line feed.
pub proof fn lemma_lines_hold_no_line_feed(text: Seq<char>, i: int, k: int)
    requires
        0 <= i < lines(text).len(),
        0 <= k < lines(text)[i].len(),
    ensures
        lines(text)[i][k] != '\n',
    decreases text.len(),
{
    if text.len() > 0 {
        let before = lines(text.drop_last());
        lemma_lines_nonempty(text.drop_last());
        if text.last() == '\n' {
            if i < before.len() {
                lemma_lines_hold_no_line_feed(text.drop_last(), i, k);
            }
        } else if i < before.len() - 1 {
            lemma_lines_hold_no_line_feed(text.drop_last(), i, k);
        } else if k < before.last().len() {
            lemma_lines_hold_no_line_feed(text.drop_last(), i, k);
        }
    }
}

/// Cutting a text into its lines loses nothing: the lines, with a line feed
/// between each two neighbours, are the text.
pub proof fn lemma_lines_joined(text: Seq<char>)
    ensures
        joined(lines(text), seq!['\n']) == text,
    decreases text.len(),
{
    let sep = seq!['\n'];
    if text.len() > 0 {
        let init = text.drop_last();
        let before = lines(init);
        lemma_lines_joined(init);
        lemma_lines_nonempty(init);
        if text.last() == '\n' {
            assert(lines(text).drop_last() == before);
            assert(joined(before, sep) + sep + Seq::<char>::empty() == init.push('\n'));
            assert(init.push('\n') == text);
        } else if before.len() == 1 {
            assert(lines(text)[0] == init.push(text.last()));
            assert(init.push(text.last()) == text);
        } else {
            let last = before.last().push(text.last());
            assert(lines(text).drop_last() == before.drop_last());
            assert(joined(before.drop_last(), sep) + sep + last == (joined(before.drop_last(), sep)
                + sep + before.last()).push(text.last()));
            assert(init.push(text.last()) == text);
        }
    }
}

/// A line that ends in a character that is no white space ends in a word.
pub proof fn lemma_words_end(line: Seq<char>)
    requires
        line.len() > 0,
        !is_space(line.last()),
    ensures
        words(line).len() >= 1,
    decreases line.len(),
{
    if line.len() >= 2 && !is_space(line[line.len() - 2]) {
        lemma_words_end(line.drop_last());
    }
}

/// What `words` gives are words: each has a character, and none of its
/// characters is white space.
pub proof fn lemma_words_hold_no_space(line: Seq<char>, i: int)
    requires
        0 <= i < words(line).len(),
    ensures
        is_word(words(line)[i]),
    decreases line.len(),
{
    if line.len() > 0 {
        let before = words(line.drop_last());
        if is_space(line.last()) {
            lemma_words_hold_no_space(line.drop_last(), i);
        } else if line.len() >= 2 && !is_space(line[line.len() - 2]) {
            lemma_words_end(line.drop_last());
            if i < before.len() - 1 {
                lemma_words_hold_no_space(line.drop_last(), i);
            } else {
                lemma_words_hold_no_space(line.drop_last(), before.len() - 1);
            }
        } else if i < before.len() {
            lemma_words_hold_no_space(line.drop_last(), i);
        }
    }
}

/// A word that follows a line which ends in white space, or an empty line,
/// is one more word of the line.
pub proof fn lemma_words_append(line: Seq<char>, word: Seq<char>)
    requires
        is_word(word),
        line.len() == 0 || is_space(line.last()),
    ensures
        words(line + word) == words(line).push(word),
    decreases word.len(),
{
    let init = word.drop_last();
    assert((line + word).drop_last() == line + init);
    if word.len() == 1 {
        assert(line + init == line);
        assert(seq![word.last()] == word);
    } else {
        assert(is_word(init)) by {
            assert forall|k: int| 0 <= k < init.len() implies !is_space(#[trigger] init[k]) by {
                assert(init[k] == word[k]);
            }
        }
        lemma_words_append(line, init);
        assert(!is_space(word[word.len() - 2]));
        assert((line + word)[(line + word).len() - 2] == word[word.len() - 2]);
        assert(init.push(word.last()) == word);
    }
}

/// Cutting a line into its words finds the words that made it: words that
/// stand in a row, with a blank between each two neighbours, are the words
/// of that row.
pub proof fn lemma_words_of_joined(found: Seq<Seq<char>>)
    requires
        forall|i: int| 0 <= i < found.len() ==> is_word(#[trigger] found[i]),
    ensures
        words(joined(found, seq![' '])) == found,
    decreases found.len(),
{
    let blank = seq![' '];
    if found.len() == 1 {
        lemma_words_append(Seq::empty(), found[0]);
        assert(Seq::<char>::empty() + found[0] == found[0]);
        assert(Seq::<Seq<char>>::empty().push(found[0]) == found);
    } else if found.len() >= 2 {
        let init = found.drop_last();
        assert forall|i: int| 0 <= i < init.len() implies is_word(#[trigger] init[i]) by {
            assert(init[i] == found[i]);
        }
        lemma_words_of_joined(init);
        let line = joined(init, blank) + blank;
        assert(line.drop_last() == joined(init, blank));
        assert(words(line) == init);
        assert(is_word(found[found.len() - 1]));
        lemma_words_append(line, found.last());
        assert(init.push(found.last()) == found);
    }
}

/// Whether `c` is white space.
pub fn is_whitespace(c: char) -> (b: bool)
    ensures
        b == is_space(c),
{
    ('\u{9}' <= c && c <= '\u{d}') || c == ' ' || c == '\u{85}' || c == '\u{a0}' || c == '\u{1680}'
        || ('\u{2000}' <= c && c <= '\u{200a}') || c == '\u{2028}' || c == '\u{2029}' || c
        == '\u{202f}' || c == '\u{205f}' || c == '\u{3000}'
}

/// The characters of `s`.
pub fn chars_of(s: &str) -> (chars: Vec<char>)
    ensures
        chars@ == s@,
{
    broadcast use vstd::string::group_string_axioms;

    let mut chars: Vec<char> = Vec::new();
    for c in it: s.chars()
        invariant
            it.seq() == s@,
            chars@ == s@.take(it.index() as int),
    {
        chars.push(c);
    }
    chars
}

/// The characters of `s` from `from` up to `to`, as a string of their own.
fn slice(s: &str, from: usize, to: usize) -> (piece: String)
    requires
        from <= to <= s@.len(),
    ensures
        piece@ == s@.subrange(from as int, to as int),
{
    String::from_str(s.substring_char(from, to))
}

/// `itertools::Itertools::join` on the strings of `parts`, in order: the
/// result holds them in a row, with `sep` between each two neighbours, and is
/// empty where there is none. The separator is short, so that the capacity
/// which `join` computes before it writes, the separator's length times the
/// number of the strings that follow the first, is one that a string can have.
#[verifier::external_body]
pub(crate) fn join(parts: &Vec<String>, sep: &str) -> (out: String)
    requires
        sep@.len() <= 2,
    ensures
        out@ == joined(texts(parts@), sep@),
{
    parts.iter().join(sep)
}

/// The digit `d` as a string.
fn digit_string(d: usize) -> (out: String)
    requires
        d < 10,
    ensures
        out@ == digit(d as nat),
{
    proof {
        reveal_strlit("0123456789");
    }
    slice("0123456789", d, d + 1)
}

/// The number `n` in decimal digits.
pub fn decimal_string(n: usize) -> (out: String)
    ensures
        out@ == decimal(n as nat),
{
    let mut out = digit_string(n % 10);
    let mut rest: usize = n / 10;
    while rest > 0
        invariant
            decimal(n as nat) == if rest > 0 {
                decimal(rest as nat) + out@
            } else {
                out@
            },
        decreases rest,
    {
        let ghost behind = out@;
        out = digit_string(rest % 10).concat(out.as_str());
        assert(decimal(rest as nat) + behind == if rest >= 10 {
            decimal((rest / 10) as nat) + out@
        } else {
            out@
        });
        rest = rest / 10;
    }
    out
}

/// Cuts `text` into its lines.
pub fn split_lines(text: &str) -> (out: Vec<String>)
    ensures
        texts(out@) == lines(text@),
{
    let chars = chars_of(text);
    let n: usize = chars.len();
    let mut out: Vec<String> = Vec::new();
    let mut start: usize = 0;
    let mut i: usize = 0;
    assert(text@.subrange(0, 0) == Seq::<char>::empty());
    assert(lines(text@.take(0)) == texts(out@).push(Seq::empty()));
    while i < n
        invariant
            chars@ == text@,
            n == chars.len(),
            start <= i <= n,
            lines(text@.take(i as int)) == texts(out@).push(text@.subrange(start as int, i as int)),
        decreases n - i,
    {
        proof {
            let upto = text@.take(i + 1);
            assert(upto.drop_last() == text@.take(i as int));
            assert(text@.subrange(start as int, i as int).push(chars@[i as int]) == text@.subrange(
                start as int,
                i + 1,
            ));
        }
        if chars[i] == '\n' {
            let line = slice(text, start, i);
            let ghost done = texts(out@);
            out.push(line);
            assert(texts(out@) == done.push(line@));
            start = i + 1;
            assert(text@.subrange(start as int, i + 1) == Seq::<char>::empty());
        }
        i += 1;
    }
    let line = slice(text, start, n);
    let ghost done = texts(out@);
    out.push(line);
    assert(texts(out@) == done.push(line@));
    assert(text@.take(n as int) == text@);
    out
}

/// Cuts `line` into its words.
pub fn split_words(line: &str) -> (out: Vec<String>)
    ensures
        texts(out@) == words(line@),
{
    let chars = chars_of(line);
    let n: usize = chars.len();
    let mut out: Vec<String> = Vec::new();
    let mut start: usize = 0;
    let mut in_word = false;
    let mut i: usize = 0;
    while i < n
        invariant
            chars@ == line@,
            n == chars.len(),
            i <= n,
            in_word <==> i > 0 && !is_space(line@[i - 1]),
            in_word ==> start < i,
            words(line@.take(i as int)) == if in_word {
                texts(out@).push(line@.subrange(start as int, i as int))
            } else {
                texts(out@)
            },
        decreases n - i,
    {
        proof {
            let upto = line@.take(i + 1);
            assert(upto.drop_last() == line@.take(i as int));
        }
        if is_whitespace(chars[i]) {
            if in_word {
                let word = slice(line, start, i);
                let ghost done = texts(out@);
                out.push(word);
                assert(texts(out@) == done.push(word@));
                in_word = false;
            }
        } else if in_word {
            assert(line@.subrange(start as int, i as int).push(chars@[i as int]) == line@.subrange(
                start as int,
                i + 1,
            ));
        } else {
            start = i;
            in_word = true;
            assert(line@.subrange(start as int, i + 1) == seq![chars@[i as int]]);
        }
        i += 1;
    }
    assert(line@.take(n as int) == line@);
    if in_word {
        let word = slice(line, start, n);
        let ghost done = texts(out@);
        out.push(word);
        assert(texts(out@) == done.push(word@));
    }
    out
}

} // verus!
