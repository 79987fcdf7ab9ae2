//! Text as sequences of characters: conversion from and to strings, ASCII
//! case, splitting into pieces, words and lines, trimming and joining.

use vstd::prelude::*;

verus! {

/// `String::push`: appends one character to a string.
#[verifier::external_body]
fn string_push(s: &mut String, c: char)
    ensures
        final(s)@ == old(s)@.push(c),
{
    s.push(c);
}

/// The characters of a string slice.
pub fn chars_of(s: &str) -> (chars: Vec<char>)
    ensures
        chars@ == s@,
{
    let mut chars: Vec<char> = Vec::new();
    for c in it: s.chars()
        invariant
            chars@ == it.seq().take(it.index()),
            it.seq() == s@,
    {
        chars.push(c);
    }
    chars
}

/// The string made of the given characters.
pub fn string_of(chars: &Vec<char>) -> (s: String)
    ensures
        s@ == chars@,
{
    let mut s = String::new();
    let mut k: usize = 0;
    while k < chars.len()
        invariant
            k <= chars@.len(),
            s@ == chars@.take(k as int),
        decreases chars@.len() - k,
    {
        string_push(&mut s, chars[k]);
        assert(chars@.take(k + 1) =~= chars@.take(k as int).push(chars@[k as int]));
        k += 1;
    }
    assert(chars@.take(chars@.len() as int) =~= chars@);
    s
}

/// Appends the characters of `tail` to `chars`.
pub fn append_chars(chars: &mut Vec<char>, tail: &Vec<char>)
    ensures
        final(chars)@ == old(chars)@ + tail@,
{
    let mut k: usize = 0;
    while k < tail.len()
        invariant
            k <= tail@.len(),
            chars@ == old(chars)@ + tail@.take(k as int),
        decreases tail@.len() - k,
    {
        chars.push(tail[k]);
        assert(tail@.take(k + 1) =~= tail@.take(k as int).push(tail@[k as int]));
        k += 1;
    }
    assert(tail@.take(tail@.len() as int) =~= tail@);
}

/// Whether two words are the same.
pub fn same_chars(a: &Vec<char>, b: &Vec<char>) -> (same: bool)
    ensures
        same == (a@ == b@),
{
    if a.len() != b.len() {
        return false;
    }
    let mut k: usize = 0;
    while k < a.len()
        invariant
            k <= a@.len() == b@.len(),
            a@.take(k as int) == b@.take(k as int),
        decreases a@.len() - k,
    {
        if a[k] != b[k] {
            return false;
        }
        assert(a@.take(k + 1) =~= a@.take(k as int).push(a@[k as int]));
        assert(b@.take(k + 1) =~= b@.take(k as int).push(b@[k as int]));
        k += 1;
    }
    assert(a@.take(a@.len() as int) =~= a@);
    assert(b@.take(b@.len() as int) =~= b@);
    true
}

/// Whether a word is the given text.
pub fn is_word(word: &Vec<char>, text: &str) -> (same: bool)
    ensures
        same == (word@ == text@),
{
    let other = chars_of(text);
    same_chars(word, &other)
}

/// Whether a character is white space: one of the characters with the
/// Unicode property `White_Space`.
pub open spec fn is_space(c: char) -> bool {
    let code = c as u32;
    ||| 0x09 <= code <= 0x0D
    ||| code == 0x20
    ||| code == 0x85
    ||| code == 0xA0
    ||| code == 0x1680
    ||| 0x2000 <= code <= 0x200A
    ||| code == 0x2028
    ||| code == 0x2029
    ||| code == 0x202F
    ||| code == 0x205F
    ||| code == 0x3000
}

/// Whether a character is white space.
pub fn is_whitespace(c: char) -> (space: bool)
    ensures
        space == is_space(c),
{
    let code = c as u32;
    (0x09 <= code && code <= 0x0D) || code == 0x20 || code == 0x85 || code == 0xA0 || code
        == 0x1680 || (0x2000 <= code && code <= 0x200A) || code == 0x2028 || code == 0x2029 || code
        == 0x202F || code == 0x205F || code == 0x3000
}

/// A character with an ASCII capital letter replaced by its small letter.
pub open spec fn lower(c: char) -> char {
    if 'A' <= c <= 'Z' {
        ((c as u8) + 32) as char
    } else {
        c
    }
}

/// A text with each ASCII capital letter replaced by its small letter.
pub open spec fn lowercase(text: Seq<char>) -> Seq<char> {
    Seq::new(text.len(), |k: int| lower(text[k]))
}

/// A character with an ASCII capital letter replaced by its small letter.
pub fn to_lower(c: char) -> (l: char)
    ensures
        l == lower(c),
{
    if 'A' <= c && c <= 'Z' {
        ((c as u8) + 32) as char
    } else {
        c
    }
}

/// A text with each ASCII capital letter replaced by its small letter.
pub fn to_lowercase(text: &Vec<char>) -> (l: Vec<char>)
    ensures
        l@ == lowercase(text@),
{
    let mut l: Vec<char> = Vec::new();
    let mut k: usize = 0;
    while k < text.len()
        invariant
            k <= text@.len(),
            l@ == lowercase(text@.take(k as int)),
        decreases text@.len() - k,
    {
        l.push(to_lower(text[k]));
        assert(lowercase(text@.take(k + 1)) =~= lowercase(text@.take(k as int)).push(
            lower(text@[k as int]),
        ));
        k += 1;
    }
    assert(text@.take(text@.len() as int) =~= text@);
    l
}

/// What splits a text into pieces.
#[derive(Debug, Clone, Copy, PartialEq, Eq, Structural)]
pub enum Separator {
    /// Any white space character.
    Space,
    /// One given character.
    Char(char),
}

impl Separator {
    /// Whether a character is a separator.
    pub open spec fn matches(self, c: char) -> bool {
        match self {
            Separator::Space => is_space(c),
            Separator::Char(sep) => c == sep,
        }
    }

    /// Whether a character is a separator.
    pub fn is_match(&self, c: char) -> (found: bool)
        ensures
            found == self.matches(c),
    {
        match self {
            Separator::Space => is_whitespace(c),
            Separator::Char(sep) => c == *sep,
        }
    }
}

/// The pieces of a text between its separators, in order. Every separator
/// ends one piece and starts the next, so there is one piece more than
/// there are separators, and two separators in a row hold an empty piece.
pub open spec fn split(text: Seq<char>, sep: Separator) -> Seq<Seq<char>>
    decreases text.len(),
{
    if text.len() == 0 {
        seq![Seq::<char>::empty()]
    } else {
        let before = split(text.drop_last(), sep);
        if sep.matches(text.last()) {
            before.push(Seq::<char>::empty())
        } else {
            before.drop_last().push(before.last().push(text.last()))
        }
    }
}

/// No character of a word is a separator.
pub open spec fn unbroken(word: Seq<char>, sep: Separator) -> bool {
    forall|k: int| 0 <= k < word.len() ==> !sep.matches(#[trigger] word[k])
}

/// The words joined into one text, with `sep` between neighbours.
pub open spec fn join(words: Seq<Seq<char>>, sep: Seq<char>) -> Seq<char>
    decreases words.len(),
{
    if words.len() == 0 {
        Seq::<char>::empty()
    } else if words.len() == 1 {
        words[0]
    } else {
        join(words.drop_last(), sep) + sep + words.last()
    }
}

/// A split text has at least one piece.
pub proof fn lemma_split_nonempty(text: Seq<char>, sep: Separator)
    ensures
        split(text, sep).len() >= 1,
    decreases text.len(),
{
    if text.len() > 0 {
        lemma_split_nonempty(text.drop_last(), sep);
    }
}

/// Appending a word without separators to a text extends the last piece.
pub proof fn lemma_split_append(text: Seq<char>, word: Seq<char>, sep: Separator)
    requires
        unbroken(word, sep),
    ensures
        split(text + word, sep) == split(text, sep).drop_last().push(
            split(text, sep).last() + word,
        ),
    decreases word.len(),
{
    lemma_split_nonempty(text, sep);
    let pieces = split(text, sep);
    if word.len() == 0 {
        assert(text + word =~= text);
        assert(pieces.last() + word =~= pieces.last());
        assert(pieces.drop_last().push(pieces.last()) =~= pieces);
    } else {
        let shorter = word.drop_last();
        lemma_split_append(text, shorter, sep);
        assert((text + word).drop_last() =~= text + shorter);
        assert(!sep.matches(word[word.len() - 1]));
        assert((pieces.last() + shorter).push(word.last()) =~= pieces.last() + word);
        assert(split(text + word, sep) =~= pieces.drop_last().push(pieces.last() + word));
    }
}

/// Splitting what was joined gives the words back, if there is at least one
/// word, no word holds a separator, and the words were joined by one
/// separator character.
pub proof fn lemma_split_join(words: Seq<Seq<char>>, c: char, sep: Separator)
    requires
        words.len() >= 1,
        sep.matches(c),
        forall|k: int| 0 <= k < words.len() ==> unbroken(#[trigger] words[k], sep),
    ensures
        split(join(words, seq![c]), sep) == words,
    decreases words.len(),
{
    if words.len() == 1 {
        lemma_split_append(Seq::<char>::empty(), words[0], sep);
        assert(Seq::<char>::empty() + words[0] =~= words[0]);
        assert(split(join(words, seq![c]), sep) =~= words);
    } else {
        let init = words.drop_last();
        lemma_split_join(init, c, sep);
        let joined = join(init, seq![c]);
        assert((joined + seq![c]).drop_last() =~= joined);
        assert(split(joined + seq![c], sep) =~= init.push(Seq::<char>::empty()));
        lemma_split_append(joined + seq![c], words.last(), sep);
        assert(Seq::<char>::empty() + words.last() =~= words.last());
        assert(split(join(words, seq![c]), sep) =~= words);
    }
}

/// The words that a list of character vectors holds.
pub open spec fn views(words: Seq<Vec<char>>) -> Seq<Seq<char>> {
    Seq::new(words.len(), |k: int| words[k]@)
}

/// Splits a text at its separators.
pub fn split_text(text: &Vec<char>, sep: Separator) -> (pieces: Vec<Vec<char>>)
    ensures
        views(pieces@) == split(text@, sep),
        pieces@.len() >= 1,
{
    let mut pieces: Vec<Vec<char>> = Vec::new();
    let mut current: Vec<char> = Vec::new();
    let mut k: usize = 0;
    assert(text@.take(0) =~= Seq::<char>::empty());
    assert(views(pieces@).push(current@) =~= split(text@.take(0), sep));
    while k < text.len()
        invariant
            k <= text@.len(),
            views(pieces@).push(current@) == split(text@.take(k as int), sep),
        decreases text@.len() - k,
    {
        let c = text[k];
        proof {
            assert(text@.take(k + 1).drop_last() =~= text@.take(k as int));
            assert(text@.take(k + 1).last() == c);
        }
        let ghost before = views(pieces@).push(current@);
        if sep.is_match(c) {
            let ghost done = views(pieces@);
            pieces.push(current);
            current = Vec::new();
            assert(views(pieces@) =~= done.push(before.last()));
            assert(views(pieces@).push(current@) =~= before.push(Seq::<char>::empty()));
        } else {
            current.push(c);
            assert(views(pieces@).push(current@) =~= before.drop_last().push(
                before.last().push(c),
            ));
        }
        k += 1;
    }
    assert(text@.take(text@.len() as int) =~= text@);
    let ghost done = views(pieces@);
    let ghost last = current@;
    pieces.push(current);
    assert(views(pieces@) =~= done.push(last));
    pieces
}

/// Joins words into one text, with `sep` between neighbours.
pub fn join_words(words: &Vec<Vec<char>>, sep: &Vec<char>) -> (text: Vec<char>)
    ensures
        text@ == join(views(words@), sep@),
{
    let mut text: Vec<char> = Vec::new();
    let mut k: usize = 0;
    assert(views(words@).take(0) =~= Seq::<Seq<char>>::empty());
    while k < words.len()
        invariant
            k <= words@.len(),
            text@ == join(views(words@).take(k as int), sep@),
        decreases words@.len() - k,
    {
        let ghost before = text@;
        if k > 0 {
            append_chars(&mut text, sep);
        }
        append_chars(&mut text, &words[k]);
        proof {
            let done = views(words@).take(k + 1);
            assert(done.drop_last() =~= views(words@).take(k as int));
            if k == 0 {
                assert(before + words@[k as int]@ =~= words@[k as int]@);
            }
        }
        k += 1;
    }
    assert(views(words@).take(words@.len() as int) =~= views(words@));
    text
}

/// Each word of a list in small letters.
pub open spec fn lowercase_each(words: Seq<Seq<char>>) -> Seq<Seq<char>> {
    Seq::new(words.len(), |k: int| lowercase(words[k]))
}

/// Small letters of two texts in a row are the small letters of each.
pub proof fn lemma_lowercase_concat(a: Seq<char>, b: Seq<char>)
    ensures
        lowercase(a + b) == lowercase(a) + lowercase(b),
{
    assert(lowercase(a + b) =~= lowercase(a) + lowercase(b));
}

/// Putting joined words in small letters is joining the words in small
/// letters, when what joins them has no capital letter.
pub proof fn lemma_lowercase_join(words: Seq<Seq<char>>, sep: Seq<char>)
    requires
        lowercase(sep) == sep,
    ensures
        lowercase(join(words, sep)) == join(lowercase_each(words), sep),
    decreases words.len(),
{
    if words.len() == 0 {
        assert(lowercase(Seq::<char>::empty()) =~= Seq::<char>::empty());
    } else if words.len() == 1 {
    } else {
        lemma_lowercase_join(words.drop_last(), sep);
        assert(lowercase_each(words).drop_last() =~= lowercase_each(words.drop_last()));
        lemma_lowercase_concat(join(words.drop_last(), sep) + sep, words.last());
        lemma_lowercase_concat(join(words.drop_last(), sep), sep);
    }
}

/// A text without the white space at its start.
pub open spec fn trim_start(text: Seq<char>) -> Seq<char>
    decreases text.len(),
{
    if text.len() > 0 && is_space(text[0]) {
        trim_start(text.skip(1))
    } else {
        text
    }
}

/// A text without the white space at its end.
pub open spec fn trim_end(text: Seq<char>) -> Seq<char>
    decreases text.len(),
{
    if text.len() > 0 && is_space(text.last()) {
        trim_end(text.drop_last())
    } else {
        text
    }
}

/// A text without the white space at its start and at its end.
pub open spec fn trim(text: Seq<char>) -> Seq<char> {
    trim_end(trim_start(text))
}

/// The number of white space characters at the start of a text.
pub open spec fn left_margin(text: Seq<char>) -> nat {
    (text.len() - trim_start(text).len()) as nat
}

/// What trimming leaves of a text is a part of it.
pub proof fn lemma_trim_start_is_suffix(text: Seq<char>)
    ensures
        trim_start(text).len() <= text.len(),
        trim_start(text) == text.skip(text.len() - trim_start(text).len()),
    decreases text.len(),
{
    if text.len() > 0 && is_space(text[0]) {
        lemma_trim_start_is_suffix(text.skip(1));
        let rest = text.skip(1);
        assert(rest.skip(rest.len() - trim_start(rest).len()) =~= text.skip(
            text.len() - trim_start(rest).len(),
        ));
    } else {
        assert(text.skip(0) =~= text);
    }
}

/// Where a text starts and ends without the white space around it: the
/// index of its first character that stays, and the index after the last.
pub fn trim_bounds(text: &Vec<char>) -> (bounds: (usize, usize))
    ensures
        bounds.0 <= bounds.1 <= text@.len(),
        bounds.0 == left_margin(text@),
        text@.subrange(bounds.0 as int, bounds.1 as int) == trim(text@),
{
    let mut from: usize = 0;
    assert(text@.skip(0) =~= text@);
    while from < text.len() && is_whitespace(text[from])
        invariant
            from <= text@.len(),
            trim_start(text@) == trim_start(text@.skip(from as int)),
        decreases text@.len() - from,
    {
        assert(text@.skip(from as int).skip(1) =~= text@.skip(from + 1));
        from += 1;
    }
    let ghost rest = text@.skip(from as int);
    assert(trim_start(text@) == rest);
    let mut to: usize = text.len();
    assert(rest.take(rest.len() as int) =~= rest);
    while to > from && is_whitespace(text[to - 1])
        invariant
            from <= to <= text@.len(),
            rest == text@.skip(from as int),
            trim_end(rest) == trim_end(rest.take(to - from)),
        decreases to,
    {
        assert(rest.take(to - from).drop_last() =~= rest.take(to - from - 1));
        to -= 1;
    }
    assert(text@.subrange(from as int, to as int) =~= rest.take(to - from));
    (from, to)
}

/// A text without the white space at its start and at its end.
pub fn trimmed(text: &Vec<char>) -> (inner: Vec<char>)
    ensures
        inner@ == trim(text@),
{
    let (from, to) = trim_bounds(text);
    let mut inner: Vec<char> = Vec::new();
    let mut k: usize = from;
    while k < to
        invariant
            from <= k <= to <= text@.len(),
            inner@ == text@.subrange(from as int, k as int),
        decreases to - k,
    {
        inner.push(text[k]);
        assert(text@.subrange(from as int, k + 1) =~= text@.subrange(from as int, k as int).push(
            text@[k as int],
        ));
        k += 1;
    }
    inner
}

/// The index in a text at which the piece of index `k` starts, where the
/// text was split at separators that are one character each.
pub open spec fn piece_start(pieces: Seq<Seq<char>>, k: int) -> nat
    decreases k,
{
    if k <= 0 {
        0
    } else {
        piece_start(pieces, k - 1) + pieces[k - 1].len() + 1
    }
}

/// Where a piece starts depends on the pieces before it only.
pub proof fn lemma_piece_start_agrees(a: Seq<Seq<char>>, b: Seq<Seq<char>>, k: int)
    requires
        k <= a.len(),
        k <= b.len(),
        forall|j: int| 0 <= j < k ==> a[j] == b[j],
    ensures
        piece_start(a, k) == piece_start(b, k),
    decreases k,
{
    if k > 0 {
        lemma_piece_start_agrees(a, b, k - 1);
    }
}

/// The last piece of a split text ends where the text ends.
pub proof fn lemma_last_piece_ends(text: Seq<char>, sep: Separator)
    ensures
        split(text, sep).len() >= 1,
        piece_start(split(text, sep), split(text, sep).len() - 1) + split(text, sep).last().len()
            == text.len(),
    decreases text.len(),
{
    lemma_split_nonempty(text, sep);
    if text.len() > 0 {
        let before = split(text.drop_last(), sep);
        let after = split(text, sep);
        lemma_last_piece_ends(text.drop_last(), sep);
        lemma_piece_start_agrees(before, after, before.len() - 1);
    }
}

/// Every piece of a split text lies in the text.
pub proof fn lemma_piece_lies_in_text(text: Seq<char>, sep: Separator, k: int)
    requires
        0 <= k < split(text, sep).len(),
    ensures
        piece_start(split(text, sep), k) + split(text, sep)[k].len() <= text.len(),
    decreases split(text, sep).len() - k,
{
    let pieces = split(text, sep);
    if k == pieces.len() - 1 {
        lemma_last_piece_ends(text, sep);
    } else {
        lemma_piece_lies_in_text(text, sep, k + 1);
    }
}

/// A line without the carriage return at its end, if it has one.
pub open spec fn without_return(line: Seq<char>) -> Seq<char> {
    if line.len() > 0 && line.last() == '\r' {
        line.drop_last()
    } else {
        line
    }
}

/// The lines of a text. A line ends at a line feed, or at a carriage return
/// that a line feed follows; what follows the last line feed is a line of
/// its own unless it is empty.
pub open spec fn lines(text: Seq<char>) -> Seq<Seq<char>> {
    let pieces = split(text, Separator::Char('\n'));
    let ended = Seq::new((pieces.len() - 1) as nat, |k: int| without_return(pieces[k]));
    if pieces.last().len() == 0 {
        ended
    } else {
        ended.push(pieces.last())
    }
}

/// The lines of a text.
pub fn lines_of(text: &Vec<char>) -> (result: Vec<Vec<char>>)
    ensures
        views(result@) == lines(text@),
{
    let mut pieces = split_text(text, Separator::Char('\n'));
    let ghost all = views(pieces@);
    let last = pieces.pop().unwrap();
    assert(last@ == all.last());
    assert(views(pieces@) =~= all.drop_last());
    let mut result: Vec<Vec<char>> = Vec::new();
    let mut k: usize = 0;
    while k < pieces.len()
        invariant
            k <= pieces@.len(),
            all.len() == pieces@.len() + 1,
            views(pieces@) == all.drop_last(),
            views(result@) == Seq::new(k as nat, |j: int| without_return(all[j])),
        decreases pieces@.len() - k,
    {
        let piece = &pieces[k];
        let mut line: Vec<char> = Vec::new();
        let to: usize = if piece.len() > 0 && piece[piece.len() - 1] == '\r' {
            piece.len() - 1
        } else {
            piece.len()
        };
        let mut j: usize = 0;
        while j < to
            invariant
                j <= to <= piece@.len(),
                line@ == piece@.take(j as int),
            decreases to - j,
        {
            line.push(piece[j]);
            assert(piece@.take(j + 1) =~= piece@.take(j as int).push(piece@[j as int]));
            j += 1;
        }
        assert(piece@ == all[k as int]) by {
            assert(views(pieces@)[k as int] == piece@);
        }
        assert(line@ =~= without_return(piece@));
        let ghost before = views(result@);
        result.push(line);
        assert(views(result@) =~= before.push(without_return(all[k as int])));
        assert(views(result@) =~= Seq::new((k + 1) as nat, |j: int| without_return(all[j])));
        k += 1;
    }
    if last.len() > 0 {
        let ghost before = views(result@);
        result.push(last);
        assert(views(result@) =~= before.push(all.last()));
    }
    result
}

/// The pieces that are not empty, in order.
pub open spec fn without_empty(pieces: Seq<Seq<char>>) -> Seq<Seq<char>>
    decreases pieces.len(),
{
    if pieces.len() == 0 {
        pieces
    } else if pieces.last().len() == 0 {
        without_empty(pieces.drop_last())
    } else {
        without_empty(pieces.drop_last()).push(pieces.last())
    }
}

/// The words of a text: its runs of characters that are not white space.
pub open spec fn words(text: Seq<char>) -> Seq<Seq<char>> {
    without_empty(split(text, Separator::Space))
}

/// The words of a text.
pub fn words_of(text: &Vec<char>) -> (result: Vec<Vec<char>>)
    ensures
        views(result@) == words(text@),
{
    let pieces = split_text(text, Separator::Space);
    let mut result: Vec<Vec<char>> = Vec::new();
    let mut k: usize = 0;
    assert(views(pieces@).take(0) =~= Seq::<Seq<char>>::empty());
    while k < pieces.len()
        invariant
            k <= pieces@.len(),
            views(result@) == without_empty(views(pieces@).take(k as int)),
        decreases pieces@.len() - k,
    {
        proof {
            let done = views(pieces@).take(k + 1);
            assert(done.drop_last() =~= views(pieces@).take(k as int));
            assert(done.last() == pieces@[k as int]@);
        }
        if pieces[k].len() > 0 {
            let ghost before = views(result@);
            result.push(pieces[k].clone());
            assert(views(result@) =~= before.push(pieces@[k as int]@));
        }
        k += 1;
    }
    assert(views(pieces@).take(pieces@.len() as int) =~= views(pieces@));
    result
}

} // verus!
