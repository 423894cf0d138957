//! Text as sequences of characters: comparing, trimming, cutting.

use vstd::prelude::*;
use vstd::slice::slice_subrange;
use vstd::utf8::{decode_utf8, valid_utf8};

verus! {

/// Whether a character has Unicode's `White_Space` property.
pub open spec fn white(c: char) -> bool {
    let u = c as u32;
    ||| 0x09 <= u <= 0x0d
    ||| u == 0x20
    ||| u == 0x85
    ||| u == 0xa0
    ||| u == 0x1680
    ||| 0x2000 <= u <= 0x200a
    ||| u == 0x2028
    ||| u == 0x2029
    ||| u == 0x202f
    ||| u == 0x205f
    ||| u == 0x3000
}

/// Tells whether a character is white space.
pub fn is_white(c: char) -> (res: bool)
    ensures
        res == white(c),
{
    let u: u32 = c as u32;
    (0x09 <= u && u <= 0x0d) || u == 0x20 || u == 0x85 || u == 0xa0 || u == 0x1680 || (0x2000 <= u
        && u <= 0x200a) || u == 0x2028 || u == 0x2029 || u == 0x202f || u == 0x205f || u == 0x3000
}

/// The characters of a text, in order.
pub fn chars_of(text: &str) -> (res: Vec<char>)
    ensures
        res@ == text@,
{
    let mut out: Vec<char> = Vec::new();
    for c in it: text.chars()
        invariant
            it.seq() == text@,
            out@ == text@.take(it.index() as int),
    {
        out.push(c);
        assert(text@.take(it.index() as int + 1) =~= text@.take(it.index() as int).push(c));
    }
    assert(text@.take(text@.len() as int) =~= text@);
    out
}

/// Tells whether characters spell a text.
pub fn spells(chars: &[char], text: &str) -> (res: bool)
    ensures
        res == (chars@ == text@),
{
    let other = chars_of(text);
    if chars.len() != other.len() {
        return false;
    }
    assert(chars@.subrange(0, chars@.len() as int) =~= chars@);
    same_at(chars, 0, &other)
}

/// Tells whether `part` stands in `chars` from position `from` on.
fn same_at(chars: &[char], from: usize, part: &Vec<char>) -> (res: bool)
    requires
        from + part@.len() <= chars@.len(),
    ensures
        res == (chars@.subrange(from as int, from + part@.len()) == part@),
{
    let n: usize = chars.len();
    let mut i: usize = 0;
    while i < part.len()
        invariant
            i <= part@.len(),
            n == chars@.len(),
            from + part@.len() <= n,
            forall|j: int| 0 <= j < i ==> chars@[from + j] == #[trigger] part@[j],
        decreases part@.len() - i,
    {
        if chars[from + i] != part[i] {
            assert(chars@.subrange(from as int, from + part@.len())[i as int] != part@[i as int]);
            return false;
        }
        i += 1;
    }
    assert(chars@.subrange(from as int, from + part@.len()) =~= part@);
    true
}

/// Tells whether characters begin with a text.
pub fn begins_with(chars: &[char], prefix: &str) -> (res: bool)
    ensures
        res == prefix@.is_prefix_of(chars@),
{
    let p = chars_of(prefix);
    if p.len() > chars.len() {
        return false;
    }
    same_at(chars, 0, &p)
}

/// Tells whether characters end with a text.
pub fn ends_with(chars: &[char], suffix: &str) -> (res: bool)
    ensures
        res == suffix@.is_suffix_of(chars@),
{
    let s = chars_of(suffix);
    if s.len() > chars.len() {
        return false;
    }
    same_at(chars, chars.len() - s.len(), &s)
}

/// `String::from_iter`, of characters: the text that they spell.
///
/// Claimed: the text consists of exactly these characters, in this order.
#[verifier::external_body]
pub(crate) fn string_of(chars: &[char]) -> (res: String)
    ensures
        res@ == chars@,
{
    String::from_iter(chars)
}

/// `String::from_utf8_lossy`: bytes as text.
pub uninterp spec fn lossy_text(bytes: Seq<u8>) -> Seq<char>;

/// `String::from_utf8_lossy`: bytes as text, with a replacement character for what is not UTF-8.
///
/// Claimed: the text depends on the bytes alone, and bytes that are valid UTF-8 are decoded as
/// they stand.
#[verifier::external_body]
pub(crate) fn lossy_string(bytes: &[u8]) -> (res: String)
    ensures
        res@ == lossy_text(bytes@),
        valid_utf8(bytes@) ==> res@ == decode_utf8(bytes@),
{
    String::from_utf8_lossy(bytes).into_owned()
}

/// The views of texts.
pub open spec fn views(texts: Seq<String>) -> Seq<Seq<char>> {
    texts.map_values(|t: String| t@)
}

/// How many characters stand before the first `c`: all of them, where there is none.
pub open spec fn position(s: Seq<char>, c: char) -> int
    decreases s.len(),
{
    if s.len() == 0 || s[0] == c {
        0
    } else {
        1 + position(s.skip(1), c)
    }
}

/// What stands before and after the first `c`.
pub open spec fn split_once(s: Seq<char>, c: char) -> Option<(Seq<char>, Seq<char>)> {
    let p = position(s, c);
    if p < s.len() {
        Some((s.take(p), s.skip(p + 1)))
    } else {
        None
    }
}

/// The position of a character, by what characterises it.
pub proof fn lemma_position(s: Seq<char>, c: char)
    ensures
        0 <= position(s, c) <= s.len(),
        position(s, c) < s.len() ==> s[position(s, c)] == c,
        forall|j: int| 0 <= j < position(s, c) ==> #[trigger] s[j] != c,
    decreases s.len(),
{
    if s.len() > 0 && s[0] != c {
        let rest = s.skip(1);
        lemma_position(rest, c);
        assert forall|j: int| 0 <= j < position(s, c) implies #[trigger] s[j] != c by {
            if j > 0 {
                assert(s[j] == rest[j - 1]);
            }
        }
        if position(rest, c) < rest.len() {
            assert(rest[position(rest, c)] == s[position(rest, c) + 1]);
        }
    }
}

/// Counts the characters before the first `c`.
pub fn find(chars: &[char], c: char) -> (res: usize)
    ensures
        res == position(chars@, c),
        res <= chars@.len(),
{
    proof {
        lemma_position(chars@, c);
    }
    let mut i: usize = 0;
    while i < chars.len() && chars[i] != c
        invariant
            i <= chars@.len(),
            forall|j: int| 0 <= j < i ==> #[trigger] chars@[j] != c,
        decreases chars@.len() - i,
    {
        i += 1;
    }
    let ghost p = position(chars@, c);
    assert(i == p) by {
        if p < i {
            assert(chars@[p] != c);
        }
        if i < p {
            assert(chars@[i as int] != c);
        }
    }
    i
}

/// The text without the white space at its beginning.
pub open spec fn trim_start(s: Seq<char>) -> Seq<char>
    decreases s.len(),
{
    if s.len() > 0 && white(s[0]) {
        trim_start(s.skip(1))
    } else {
        s
    }
}

/// The text without the white space at its end.
pub open spec fn trim_end(s: Seq<char>) -> Seq<char>
    decreases s.len(),
{
    if s.len() > 0 && white(s.last()) {
        trim_end(s.drop_last())
    } else {
        s
    }
}

/// The text without the white space at both ends.
pub open spec fn trimmed(s: Seq<char>) -> Seq<char> {
    trim_end(trim_start(s))
}

/// Cuts off the white space at both ends.
pub fn trim(chars: &[char]) -> (res: &[char])
    ensures
        res@ == trimmed(chars@),
{
    let mut from: usize = 0;
    assert(chars@.skip(0) =~= chars@);
    while from < chars.len() && is_white(chars[from])
        invariant
            from <= chars@.len(),
            trim_start(chars@) == trim_start(chars@.skip(from as int)),
        decreases chars@.len() - from,
    {
        assert(chars@.skip(from as int).skip(1) =~= chars@.skip(from + 1));
        from += 1;
    }
    let ghost rest = chars@.skip(from as int);
    assert(trim_start(chars@) == rest);
    let mut to: usize = chars.len();
    assert(chars@.subrange(from as int, to as int) =~= rest);
    while to > from && is_white(chars[to - 1])
        invariant
            from <= to <= chars@.len(),
            trim_end(rest) == trim_end(chars@.subrange(from as int, to as int)),
        decreases to,
    {
        assert(chars@.subrange(from as int, to as int).drop_last() =~= chars@.subrange(
            from as int,
            to - 1,
        ));
        to -= 1;
    }
    slice_subrange(chars, from, to)
}

/// How many characters stand before the first white space.
pub open spec fn word_len(s: Seq<char>) -> int
    decreases s.len(),
{
    if s.len() == 0 || white(s[0]) {
        0
    } else {
        1 + word_len(s.skip(1))
    }
}

/// The length of a word is no more than that of the text.
pub proof fn lemma_word_len(s: Seq<char>)
    ensures
        0 <= word_len(s) <= s.len(),
        s.len() > 0 && !white(s[0]) ==> word_len(s) > 0,
    decreases s.len(),
{
    if s.len() > 0 && !white(s[0]) {
        lemma_word_len(s.skip(1));
    }
}

/// The parts of a text that white space sets apart.
pub open spec fn words(s: Seq<char>) -> Seq<Seq<char>>
    decreases s.len(),
{
    proof {
        lemma_word_len(s);
    }
    if s.len() == 0 {
        Seq::empty()
    } else if white(s[0]) {
        words(s.skip(1))
    } else {
        seq![s.take(word_len(s))] + words(s.skip(word_len(s)))
    }
}

/// Cuts a text at its white space.
pub fn split_words(text: &str) -> (res: Vec<String>)
    ensures
        views(res@) == words(text@),
{
    let owned = chars_of(text);
    let chars = owned.as_slice();
    let mut out: Vec<String> = Vec::new();
    let mut pos: usize = 0;
    assert(chars@.skip(0) =~= chars@);
    assert(views(out@) =~= Seq::<Seq<char>>::empty());
    assert(words(chars@) =~= views(out@) + words(chars@.skip(0)));
    while pos < chars.len()
        invariant
            pos <= chars@.len(),
            words(chars@) == views(out@) + words(chars@.skip(pos as int)),
        decreases chars@.len() - pos,
    {
        let ghost rest = chars@.skip(pos as int);
        proof {
            lemma_word_len(rest);
        }
        assert(rest[0] == chars@[pos as int]);
        if is_white(chars[pos]) {
            assert(rest.skip(1) =~= chars@.skip(pos + 1));
            pos += 1;
        } else {
            let mut end: usize = pos;
            assert(chars@.skip(end as int) =~= rest);
            while end < chars.len() && !is_white(chars[end])
                invariant
                    pos <= end <= chars@.len(),
                    rest == chars@.skip(pos as int),
                    word_len(rest) == end - pos + word_len(chars@.skip(end as int)),
                decreases chars@.len() - end,
            {
                assert(chars@.skip(end as int).skip(1) =~= chars@.skip(end + 1));
                assert(chars@.skip(end as int)[0] == chars@[end as int]);
                end += 1;
            }
            assert(end < chars@.len() ==> chars@.skip(end as int)[0] == chars@[end as int]);
            assert(word_len(rest) == end - pos);
            let ghost before = views(out@);
            let word = string_of(slice_subrange(chars, pos, end));
            assert(word@ =~= rest.take(word_len(rest)));
            assert(rest.skip(word_len(rest)) =~= chars@.skip(end as int));
            out.push(word);
            assert(views(out@) =~= before.push(word@));
            assert(words(chars@) =~= views(out@) + words(chars@.skip(end as int)));
            pos = end;
        }
    }
    assert(words(chars@) =~= views(out@));
    out
}

/// A line without the carriage return at its end.
pub open spec fn without_cr(s: Seq<char>) -> Seq<char> {
    if s.len() > 0 && s.last() == '\r' {
        s.drop_last()
    } else {
        s
    }
}

/// The lines of a text: what ends with a line feed, after an optional carriage return, and what
/// is left after the last line feed, if anything.
pub open spec fn lines(s: Seq<char>) -> Seq<Seq<char>>
    decreases s.len(),
{
    proof {
        lemma_position(s, '\n');
    }
    let p = position(s, '\n');
    if s.len() == 0 {
        Seq::empty()
    } else if p == s.len() {
        seq![s]
    } else {
        seq![without_cr(s.take(p))] + lines(s.skip(p + 1))
    }
}

/// Where a character stands, in a text put together around it.
pub(crate) proof fn lemma_position_between(before: Seq<char>, c: char, after: Seq<char>)
    requires
        !before.contains(c),
    ensures
        position(before + seq![c] + after, c) == before.len(),
{
    let s = before + seq![c] + after;
    lemma_position(s, c);
    let p = position(s, c);
    assert(s[before.len() as int] == c);
    if p < before.len() {
        assert(s[p] == before[p]);
    }
}

/// The views of texts are the texts' characters, one text after another.
pub proof fn law_views_show_every_text(texts: Seq<String>)
    ensures
        views(texts).len() == texts.len(),
        forall|i: int| 0 <= i < texts.len() ==> #[trigger] views(texts)[i] == texts[i]@,
{
}

/// A text is split at the first `c`, which itself is dropped; one without any is not split.
pub proof fn law_split_at_the_first(before: Seq<char>, c: char, after: Seq<char>)
    requires
        !before.contains(c),
    ensures
        split_once(before + seq![c] + after, c) == Some((before, after)),
        split_once(before, c) is None,
{
    let s = before + seq![c] + after;
    lemma_position_between(before, c, after);
    assert(s.take(before.len() as int) =~= before);
    assert(s.skip(before.len() as int + 1) =~= after);
    lemma_position(before, c);
}

/// White space at the beginning is passed over.
proof fn lemma_trim_start(blank: Seq<char>, rest: Seq<char>)
    requires
        forall|i: int| 0 <= i < blank.len() ==> white(#[trigger] blank[i]),
    ensures
        trim_start(blank + rest) == trim_start(rest),
    decreases blank.len(),
{
    if blank.len() > 0 {
        assert((blank + rest).skip(1) =~= blank.skip(1) + rest);
        assert forall|i: int| 0 <= i < blank.skip(1).len() implies white(
            #[trigger] blank.skip(1)[i],
        ) by {
            assert(blank.skip(1)[i] == blank[i + 1]);
        }
        assert((blank + rest)[0] == blank[0]);
        lemma_trim_start(blank.skip(1), rest);
    } else {
        assert(blank + rest =~= rest);
    }
}

/// White space at the end is cut off.
proof fn lemma_trim_end(text: Seq<char>, blank: Seq<char>)
    requires
        forall|i: int| 0 <= i < blank.len() ==> white(#[trigger] blank[i]),
    ensures
        trim_end(text + blank) == trim_end(text),
    decreases blank.len(),
{
    if blank.len() > 0 {
        assert((text + blank).drop_last() =~= text + blank.drop_last());
        assert((text + blank).last() == blank[blank.len() - 1]);
        lemma_trim_end(text, blank.drop_last());
    } else {
        assert(text + blank =~= text);
    }
}

/// Trimming cuts off the white space on both sides, and nothing else: whatever begins and ends
/// with other characters is left as it is.
pub proof fn law_trimming_cuts_both_sides(before: Seq<char>, text: Seq<char>, after: Seq<char>)
    requires
        forall|i: int| 0 <= i < before.len() ==> white(#[trigger] before[i]),
        forall|i: int| 0 <= i < after.len() ==> white(#[trigger] after[i]),
        text.len() == 0 || (!white(text[0]) && !white(text[text.len() - 1])),
    ensures
        trimmed(before + text + after) == text,
{
    let rest = text + after;
    assert(before + text + after =~= before + rest);
    lemma_trim_start(before, rest);
    if text.len() == 0 {
        let none = Seq::<char>::empty();
        assert(rest =~= after + none);
        lemma_trim_start(after, none);
        assert(text =~= none);
    } else {
        assert(rest[0] == text[0]);
        lemma_trim_end(text, after);
    }
}

/// White space ends a word.
proof fn lemma_word_ends(a: Seq<char>, c: char, b: Seq<char>)
    requires
        white(c),
    ensures
        word_len(a + seq![c] + b) == word_len(a),
    decreases a.len(),
{
    let s = a + seq![c] + b;
    if a.len() > 0 {
        assert(s[0] == a[0]);
        if !white(a[0]) {
            assert(s.skip(1) =~= a.skip(1) + seq![c] + b);
            lemma_word_ends(a.skip(1), c, b);
        }
    } else {
        assert(s[0] == c);
    }
}

/// White space sets words apart: what stands before it and what stands after it have their words
/// each for itself.
pub proof fn law_white_space_sets_words_apart(a: Seq<char>, c: char, b: Seq<char>)
    requires
        white(c),
    ensures
        words(a + seq![c] + b) == words(a) + words(b),
    decreases a.len(),
{
    let s = a + seq![c] + b;
    if a.len() == 0 {
        assert(s[0] == c);
        assert(s.skip(1) =~= b);
        assert(words(a) + words(b) =~= words(b));
    } else {
        assert(s[0] == a[0]);
        if white(a[0]) {
            assert(s.skip(1) =~= a.skip(1) + seq![c] + b);
            law_white_space_sets_words_apart(a.skip(1), c, b);
        } else {
            let n = word_len(a);
            lemma_word_len(a);
            lemma_word_ends(a, c, b);
            assert(s.take(n) =~= a.take(n));
            assert(s.skip(n) =~= a.skip(n) + seq![c] + b);
            law_white_space_sets_words_apart(a.skip(n), c, b);
            assert(words(s) =~= words(a) + words(b));
        }
    }
}

/// Characters other than white space make up one word; no characters make up none.
pub proof fn law_one_word(s: Seq<char>)
    requires
        forall|i: int| 0 <= i < s.len() ==> !white(#[trigger] s[i]),
    ensures
        words(s) == if s.len() == 0 {
            Seq::<Seq<char>>::empty()
        } else {
            seq![s]
        },
{
    if s.len() > 0 {
        lemma_whole_word(s);
        assert(s.take(s.len() as int) =~= s);
        let none = Seq::<char>::empty();
        assert(s.skip(s.len() as int) =~= none);
        assert(words(none) == Seq::<Seq<char>>::empty());
        assert(words(s) =~= seq![s]);
    }
}

/// A word without white space has the length of the text.
proof fn lemma_whole_word(s: Seq<char>)
    requires
        forall|i: int| 0 <= i < s.len() ==> !white(#[trigger] s[i]),
    ensures
        word_len(s) == s.len(),
    decreases s.len(),
{
    if s.len() > 0 {
        assert forall|i: int| 0 <= i < s.skip(1).len() implies !white(#[trigger] s.skip(1)[i]) by {
            assert(s.skip(1)[i] == s[i + 1]);
        }
        lemma_whole_word(s.skip(1));
    }
}

/// A line feed ends a line, together with a carriage return before it; what is left after the last
/// line feed is a line of its own, as it stands, unless nothing is left.
pub proof fn law_lines_end_with_line_feeds(line: Seq<char>, rest: Seq<char>)
    requires
        !line.contains('\n'),
    ensures
        line.len() > 0 && line[line.len() - 1] == '\r' ==> lines(line + seq!['\n'] + rest) == seq![
            line.subrange(0, line.len() - 1),
        ] + lines(rest),
        line.len() == 0 || line[line.len() - 1] != '\r' ==> lines(line + seq!['\n'] + rest)
            == seq![line] + lines(rest),
        lines(line) == if line.len() == 0 {
            Seq::<Seq<char>>::empty()
        } else {
            seq![line]
        },
{
    let s = line + seq!['\n'] + rest;
    lemma_position_between(line, '\n', rest);
    lemma_position(line, '\n');
    assert(s.take(line.len() as int) =~= line);
    assert(s.skip(line.len() as int + 1) =~= rest);
    if line.len() > 0 {
        assert(line.drop_last() =~= line.subrange(0, line.len() - 1));
    }
}

} // verus!
