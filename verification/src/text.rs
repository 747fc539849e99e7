//! Text as sequences of characters: whitespace and the words of a line.

use vstd::prelude::*;
use vstd::std_specs::iter::IteratorSpec;
use vstd::string::StrSliceExecFns;

verus! {

broadcast use vstd::string::group_string_axioms;

/// The characters that separate words: those with the Unicode property
/// `White_Space`.
pub open spec fn is_whitespace(c: char) -> bool {
    let u = c as u32;
    ||| 0x09 <= u <= 0x0d
    ||| u == 0x20
    ||| u == 0x85
    ||| u == 0xa0
    ||| u == 0x1680
    ||| 0x2000 <= u <= 0x200a
    ||| u == 0x2028
    ||| u == 0x2029
    ||| u == 0x202f
    ||| u == 0x205f
    ||| u == 0x3000
}

/// Whether `c` separates words.
pub fn is_separator(c: char) -> (separates: bool)
    ensures
        separates == is_whitespace(c),
{
    let u = c as u32;
    (0x09 <= u && u <= 0x0d) || u == 0x20 || u == 0x85 || u == 0xa0 || u == 0x1680 || (0x2000 <= u
        && u <= 0x200a) || u == 0x2028 || u == 0x2029 || u == 0x202f || u == 0x205f || u == 0x3000
}

/// A word: at least one character, none of them whitespace.
pub open spec fn is_word(s: Seq<char>) -> bool {
    &&& s.len() > 0
    &&& forall|i: int| 0 <= i < s.len() ==> !is_whitespace(#[trigger] s[i])
}

/// The first position at or after `from` that holds no whitespace, or the
/// length of `s` where there is none.
pub open spec fn word_start(s: Seq<char>, from: int) -> int
    decreases s.len() - from,
{
    if from < 0 || from >= s.len() {
        s.len() as int
    } else if !is_whitespace(s[from]) {
        from
    } else {
        word_start(s, from + 1)
    }
}

/// The first position at or after `from` that holds whitespace, or the
/// length of `s` where there is none.
pub open spec fn word_end(s: Seq<char>, from: int) -> int
    decreases s.len() - from,
{
    if from < 0 || from >= s.len() {
        s.len() as int
    } else if is_whitespace(s[from]) {
        from
    } else {
        word_end(s, from + 1)
    }
}

/// The words of `s` that begin at or after `from`, in order.
pub open spec fn words_from(s: Seq<char>, from: int) -> Seq<Seq<char>>
    decreases s.len() - from,
{
    let start = word_start(s, from);
    let end = word_end(s, start);
    if 0 <= from <= start < end <= s.len() {
        seq![s.subrange(start, end)] + words_from(s, end)
    } else {
        Seq::empty()
    }
}

/// The words of `s`: its maximal runs of characters that are not
/// whitespace.
pub open spec fn words(s: Seq<char>) -> Seq<Seq<char>> {
    words_from(s, 0)
}

/// `word_start` lands on a character that is not whitespace, or on the end.
pub proof fn lemma_word_start(s: Seq<char>, from: int)
    requires
        0 <= from <= s.len(),
    ensures
        from <= word_start(s, from) <= s.len(),
        word_start(s, from) < s.len() ==> !is_whitespace(s[word_start(s, from)]),
        forall|i: int| from <= i < word_start(s, from) ==> is_whitespace(#[trigger] s[i]),
    decreases s.len() - from,
{
    if from < s.len() && is_whitespace(s[from]) {
        lemma_word_start(s, from + 1);
    }
}

/// `word_end` lands on whitespace, or on the end, and passes none before.
pub proof fn lemma_word_end(s: Seq<char>, from: int)
    requires
        0 <= from <= s.len(),
    ensures
        from <= word_end(s, from) <= s.len(),
        word_end(s, from) < s.len() ==> is_whitespace(s[word_end(s, from)]),
        forall|i: int| from <= i < word_end(s, from) ==> !is_whitespace(#[trigger] s[i]),
        from < s.len() && !is_whitespace(s[from]) ==> from < word_end(s, from),
    decreases s.len() - from,
{
    if from < s.len() && !is_whitespace(s[from]) {
        lemma_word_end(s, from + 1);
    }
}

/// A stretch of whitespace is skipped: the word search that begins in it
/// continues behind it.
pub proof fn lemma_word_start_skips(s: Seq<char>, from: int, to: int)
    requires
        0 <= from <= to <= s.len(),
        forall|i: int| from <= i < to ==> is_whitespace(#[trigger] s[i]),
    ensures
        word_start(s, from) == word_start(s, to),
    decreases to - from,
{
    if from < to {
        lemma_word_start_skips(s, from + 1, to);
    }
}

/// A stretch without whitespace that ends at whitespace, or at the end of
/// `s`, is where `word_end` stops.
pub proof fn lemma_word_end_stops(s: Seq<char>, from: int, to: int)
    requires
        0 <= from <= to <= s.len(),
        forall|i: int| from <= i < to ==> !is_whitespace(#[trigger] s[i]),
        to < s.len() ==> is_whitespace(s[to]),
    ensures
        word_end(s, from) == to,
    decreases to - from,
{
    if from < to {
        lemma_word_end_stops(s, from + 1, to);
    }
}

/// Where whitespace, then a stretch without whitespace, then whitespace or
/// the end follow `from`, that stretch is the next word.
pub proof fn lemma_words_from_word(s: Seq<char>, from: int, start: int, end: int)
    requires
        0 <= from <= start < end <= s.len(),
        forall|i: int| from <= i < start ==> is_whitespace(#[trigger] s[i]),
        forall|i: int| start <= i < end ==> !is_whitespace(#[trigger] s[i]),
        end < s.len() ==> is_whitespace(s[end]),
    ensures
        words_from(s, from) == seq![s.subrange(start, end)] + words_from(s, end),
{
    lemma_word_start_skips(s, from, start);
    lemma_word_end_stops(s, start, end);
}

/// Behind the last word there is none.
pub proof fn lemma_words_from_blank(s: Seq<char>, from: int)
    requires
        0 <= from <= s.len(),
        forall|i: int| from <= i < s.len() ==> is_whitespace(#[trigger] s[i]),
    ensures
        words_from(s, from) == Seq::<Seq<char>>::empty(),
{
    lemma_word_start_skips(s, from, s.len() as int);
}

/// The word search in the back part of a text goes as in that part alone.
pub proof fn lemma_word_bounds_shift(front: Seq<char>, back: Seq<char>, from: int)
    requires
        0 <= from <= back.len(),
    ensures
        word_start(front + back, front.len() + from) == front.len() + word_start(back, from),
        word_end(front + back, front.len() + from) == front.len() + word_end(back, from),
    decreases back.len() - from,
{
    if from < back.len() {
        assert((front + back)[front.len() + from] == back[from]);
        lemma_word_bounds_shift(front, back, from + 1);
    }
}

/// The words in the back part of a text are the words of that part alone.
pub proof fn lemma_words_from_shift(front: Seq<char>, back: Seq<char>, from: int)
    requires
        0 <= from <= back.len(),
    ensures
        words_from(front + back, front.len() + from) == words_from(back, from),
    decreases back.len() - from,
{
    let whole = front + back;
    let start = word_start(back, from);
    lemma_word_start(back, from);
    lemma_word_bounds_shift(front, back, from);
    if start < back.len() {
        let end = word_end(back, start);
        lemma_word_end(back, start);
        lemma_word_bounds_shift(front, back, start);
        lemma_words_from_shift(front, back, end);
        assert(whole.subrange(front.len() + start, front.len() + end) =~= back.subrange(
            start,
            end,
        ));
    }
}

/// A word is the one word of its text.
pub proof fn lemma_words_of_word(word: Seq<char>)
    requires
        is_word(word),
    ensures
        words(word) == seq![word],
{
    lemma_words_from_word(word, 0, 0, word.len() as int);
    lemma_words_from_blank(word, word.len() as int);
    assert(word.subrange(0, word.len() as int) =~= word);
    assert(seq![word] + Seq::<Seq<char>>::empty() =~= seq![word]);
}

/// The words of a word, a space and more text are the word and the words
/// of that text.
pub proof fn lemma_words_of_joined(word: Seq<char>, rest: Seq<char>)
    requires
        is_word(word),
    ensures
        words(word + seq![' '] + rest) == seq![word] + words(rest),
{
    let front = word + seq![' '];
    let whole = front + rest;
    let a = word.len() as int;
    assert(is_whitespace(' '));
    assert forall|i: int| 0 <= i < a implies !is_whitespace(#[trigger] whole[i]) by {
        assert(whole[i] == word[i]);
    }
    assert(whole[a] == ' ');
    lemma_words_from_word(whole, 0, 0, a);
    assert(whole.subrange(0, a) =~= word);
    lemma_word_start_skips(whole, a, a + 1);
    lemma_words_from_shift(front, rest, 0);
    assert(word_start(whole, a) == word_start(whole, a + 1));
    assert(words_from(whole, a) == words_from(whole, a + 1));
}

/// Every word of a text is a word: not empty, and free of whitespace.
pub proof fn lemma_words_are_words(s: Seq<char>, from: int)
    requires
        0 <= from <= s.len(),
    ensures
        forall|i: int|
            0 <= i < words_from(s, from).len() ==> is_word(#[trigger] words_from(s, from)[i]),
    decreases s.len() - from,
{
    let start = word_start(s, from);
    let end = word_end(s, start);
    lemma_word_start(s, from);
    if start < s.len() {
        lemma_word_end(s, start);
        lemma_words_are_words(s, end);
        let first = s.subrange(start, end);
        assert(is_word(first)) by {
            assert forall|i: int| 0 <= i < first.len() implies !is_whitespace(
                #[trigger] first[i],
            ) by {
                assert(first[i] == s[start + i]);
            }
        }
        assert forall|i: int| 0 <= i < words_from(s, from).len() implies is_word(
            #[trigger] words_from(s, from)[i],
        ) by {
            if i > 0 {
                assert(words_from(s, from)[i] == words_from(s, end)[i - 1]);
            }
        }
    }
}

/// The characters of `s`, in order.
pub fn chars_of(s: &str) -> (chars: Vec<char>)
    ensures
        chars@ == s@,
{
    let mut it = s.chars();
    let mut chars: Vec<char> = Vec::new();
    loop
        invariant
            it.obeys_prophetic_iter_laws(),
            it.decrease() is Some,
            chars@ + it.remaining() == s@,
        ensures
            chars@ == s@,
        decreases it.decrease()->0,
    {
        let ghost before = it.remaining();
        match it.next() {
            Some(c) => {
                chars.push(c);
                assert(chars@ + it.remaining() =~= s@) by {
                    assert(before =~= seq![c] + it.remaining());
                }
            },
            None => {
                assert(chars@ + it.remaining() =~= chars@);
                break ;
            },
        }
    }
    chars
}

/// Whether `s` is a word.
pub fn is_word_text(s: &str) -> (word: bool)
    ensures
        word == is_word(s@),
{
    let chars = chars_of(s);
    if chars.len() == 0 {
        return false;
    }
    let mut i: usize = 0;
    while i < chars.len()
        invariant
            i <= chars.len(),
            chars@ == s@,
            forall|j: int| 0 <= j < i ==> !is_whitespace(#[trigger] s@[j]),
        decreases chars.len() - i,
    {
        if is_separator(chars[i]) {
            return false;
        }
        i += 1;
    }
    true
}

/// The position of the first character at or after `from` that is not
/// whitespace.
fn find_word_start(chars: &Vec<char>, from: usize) -> (start: usize)
    requires
        from <= chars.len(),
    ensures
        start == word_start(chars@, from as int),
{
    let mut i: usize = from;
    while i < chars.len() && is_separator(chars[i])
        invariant
            from <= i <= chars.len(),
            word_start(chars@, from as int) == word_start(chars@, i as int),
        decreases chars.len() - i,
    {
        i += 1;
    }
    i
}

/// The position of the first whitespace at or after `from`.
fn find_word_end(chars: &Vec<char>, from: usize) -> (end: usize)
    requires
        from <= chars.len(),
    ensures
        end == word_end(chars@, from as int),
{
    let mut i: usize = from;
    while i < chars.len() && !is_separator(chars[i])
        invariant
            from <= i <= chars.len(),
            word_end(chars@, from as int) == word_end(chars@, i as int),
        decreases chars.len() - i,
    {
        i += 1;
    }
    i
}

/// The first `limit` words of `text`, or all of them where it has fewer.
pub fn leading_words(text: &str, limit: usize) -> (found: Vec<String>)
    ensures
        found.len() == if words(text@).len() < limit {
            words(text@).len()
        } else {
            limit as nat
        },
        forall|i: int| 0 <= i < found.len() ==> (#[trigger] found[i])@ == words(text@)[i],
{
    let chars = chars_of(text);
    let mut found: Vec<String> = Vec::new();
    let mut at: usize = 0;
    while found.len() < limit
        invariant
            chars@ == text@,
            at <= chars.len(),
            found.len() <= limit,
            words(text@) =~= Seq::new(found.len() as nat, |i: int| found[i]@) + words_from(
                text@,
                at as int,
            ),
        ensures
            found.len() == if words(text@).len() < limit {
                words(text@).len()
            } else {
                limit as nat
            },
            forall|i: int| 0 <= i < found.len() ==> (#[trigger] found[i])@ == words(text@)[i],
        decreases limit - found.len(),
    {
        let start = find_word_start(&chars, at);
        proof {
            lemma_word_start(text@, at as int);
        }
        if start >= chars.len() {
            assert forall|i: int| 0 <= i < found.len() implies (#[trigger] found[i])@ == words(
                text@,
            )[i] by {
                assert(Seq::new(found.len() as nat, |i: int| found[i]@)[i] == found[i]@);
            }
            break ;
        }
        let end = find_word_end(&chars, start);
        proof {
            lemma_word_end(text@, start as int);
        }
        let ghost before = Seq::new(found.len() as nat, |i: int| found[i]@);
        let word = text.substring_char(start, end).to_owned();
        found.push(word);
        at = end;
        proof {
            let after = Seq::new(found.len() as nat, |i: int| found[i]@);
            assert(after =~= before + seq![text@.subrange(start as int, end as int)]);
            assert forall|i: int| 0 <= i < found.len() implies (#[trigger] found[i])@ == words(
                text@,
            )[i] by {
                assert(after[i] == found[i]@);
            }
        }
    }
    found
}

} // verus!
