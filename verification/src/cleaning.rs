//! Cleaning of a recognised text.

use crate::search::{contains, cut_span, find};
use crate::text::{chars_of, collapse_whitespace, string_of};
use crate::unicode::{to_lowercase, to_uppercase};
use vstd::prelude::*;
use vstd::utf8::*;

verus! {

/// A filler word with a space on either side.
pub open spec fn padded(word: Seq<char>) -> Seq<char> {
    seq![' '] + word + seq![' ']
}

/// A padded word has its two spaces.
proof fn lemma_padded_bytes(word: Seq<char>)
    ensures
        encode_utf8(padded(word)).len() >= 2,
        encode_utf8(padded(word)) == seq![0x20u8] + encode_utf8(word) + seq![0x20u8],
{
    crate::search::lemma_encode_space();
    crate::search::lemma_encode_concat(seq![' '], word);
    crate::search::lemma_encode_concat(seq![' '] + word, seq![' ']);
}

/// The padded `word` stands in `text`, letter case aside.
pub open spec fn has_filler(text: Seq<char>, word: Seq<char>) -> bool {
    crate::text::has_part(
        crate::unicode::lowercase(text),
        crate::unicode::lowercase(padded(word)),
    )
}

/// `text` after as many bytes as the padded `word` has were cut out at `at`,
/// again and again at the same offset for as long as the padded word stands
/// anywhere in what is left. `None` where one of the cuts would leave no text.
pub open spec fn strip_at(text: Seq<char>, word: Seq<char>, at: int) -> Option<Seq<char>>
    decreases encode_utf8(text).len(),
    via strip_at_shrinks
{
    let end = at + encode_utf8(padded(word)).len();
    if crate::search::can_cut(text, at, end) {
        let rest = crate::search::cut(text, at, end);
        if has_filler(rest, word) {
            strip_at(rest, word, at)
        } else {
            Some(rest)
        }
    } else {
        None
    }
}

/// Every cut makes the text shorter by at least one byte.
#[via_fn]
proof fn strip_at_shrinks(text: Seq<char>, word: Seq<char>, at: int) {
    let end = at + encode_utf8(padded(word)).len();
    if crate::search::can_cut(text, at, end) {
        crate::search::lemma_cut_bytes(text, at, end);
        lemma_padded_bytes(word);
    }
}

/// `text` without the filler `word`: the cuts are made where the padded word
/// first stands in the lowercase text.
pub open spec fn strip_word(text: Seq<char>, word: Seq<char>) -> Option<Seq<char>> {
    match crate::search::first_at(
        encode_utf8(crate::unicode::lowercase(text)),
        encode_utf8(crate::unicode::lowercase(padded(word))),
    ) {
        Some(at) => strip_at(text, word, at),
        None => Some(text),
    }
}

/// `text` without the filler `words`, one word after the other.
pub open spec fn strip_words(text: Seq<char>, words: Seq<Seq<char>>) -> Option<Seq<char>>
    decreases words.len(),
{
    if words.len() == 0 {
        Some(text)
    } else {
        match strip_words(text, words.drop_last()) {
            Some(rest) => strip_word(rest, words.last()),
            None => None,
        }
    }
}

/// A plain text `before`, the filler `word` in any letter case as `found`, and
/// `after` stand one behind the other with a space between each two; the word
/// has no whitespace in it and stands nowhere else.
pub open spec fn is_single_filler(
    before: Seq<char>,
    found: Seq<char>,
    after: Seq<char>,
    word: Seq<char>,
) -> bool {
    &&& crate::unicode::is_plain_text(before)
    &&& crate::unicode::is_plain_text(found)
    &&& crate::unicode::is_plain_text(after)
    &&& crate::unicode::is_plain_text(word)
    &&& crate::unicode::lowered(found) == crate::unicode::lowered(word)
    &&& forall|i: int| 0 <= i < word.len() ==> !crate::text::is_white(#[trigger] word[i])
    &&& !crate::text::has_part(
        crate::unicode::lowered(before + seq![' '] + after),
        padded(crate::unicode::lowered(word)),
    )
}

/// A plain text keeps its number of bytes in small letters.
proof fn lemma_lowered_bytes(text: Seq<char>)
    requires
        crate::unicode::is_plain_text(text),
    ensures
        encode_utf8(crate::unicode::lowered(text)).len() == encode_utf8(text).len(),
    decreases text.len(),
{
    if text.len() > 0 {
        let rest = text.drop_first();
        assert(crate::unicode::is_plain(text[0]));
        assert forall|i: int| 0 <= i < rest.len() implies crate::unicode::is_plain(
            #[trigger] rest[i],
        ) by {
            assert(rest[i] == text[i + 1]);
        }
        lemma_lowered_bytes(rest);
        assert(crate::unicode::lowered(text).drop_first() =~= crate::unicode::lowered(rest));
        assert(crate::unicode::lowered(text)[0] == crate::unicode::lower_of(text[0]));
    }
}

/// A padded word in small letters is the word in small letters, padded.
proof fn lemma_lowered_padded(word: Seq<char>)
    ensures
        crate::unicode::lowered(padded(word)) == padded(crate::unicode::lowered(word)),
{
    assert(crate::unicode::lowered(padded(word)) =~= padded(crate::unicode::lowered(word)));
}

/// A plain word with its spaces is plain.
proof fn lemma_plain_padded(word: Seq<char>)
    requires
        crate::unicode::is_plain_text(word),
    ensures
        crate::unicode::is_plain_text(padded(word)),
{
    assert(crate::unicode::is_plain(' '));
}

/// The search finds the single filler where it stands, and it is as long as the
/// padded word.
proof fn lemma_single_filler(
    before: Seq<char>,
    found: Seq<char>,
    after: Seq<char>,
    word: Seq<char>,
)
    requires
        is_single_filler(before, found, after, word),
    ensures
        crate::unicode::is_plain_text(before + padded(found) + after),
        crate::unicode::is_plain_text(padded(word)),
        crate::unicode::is_plain_text(before + seq![' '] + after),
        crate::unicode::lowered(padded(word)) == padded(crate::unicode::lowered(word)),
        encode_utf8(padded(found)).len() == encode_utf8(padded(word)).len(),
        crate::search::first_at(
            encode_utf8(crate::unicode::lowered(before + padded(found) + after)),
            encode_utf8(crate::unicode::lowered(padded(word))),
        ) == Some(encode_utf8(before).len() as int),
{
    let text = before + padded(found) + after;
    let rest = before + seq![' '] + after;
    let low = crate::unicode::lowered(text);
    let low_rest = crate::unicode::lowered(rest);
    let needle = crate::unicode::lowered(padded(word));
    let at = before.len() as int;
    let n = needle.len() as int;
    assert(crate::unicode::is_plain(' '));
    lemma_lowered_padded(word);
    lemma_lowered_padded(found);
    assert(found.len() == word.len()) by {
        assert(crate::unicode::lowered(found).len() == crate::unicode::lowered(word).len());
    }
    lemma_lowered_bytes(found);
    lemma_lowered_bytes(word);
    lemma_lowered_bytes(before);
    lemma_padded_bytes(found);
    lemma_padded_bytes(word);
    assert(low.subrange(at, at + n) =~= needle) by {
        assert forall|k: int| 0 <= k < n implies low[at + k] == needle[k] by {
            assert(text[at + k] == padded(found)[k]);
            assert(crate::unicode::lowered(padded(found))[k] == needle[k]);
        }
    }
    assert(crate::text::part_at(low, needle, at));
    assert forall|j: int| 0 <= j < at implies !crate::text::part_at(low, needle, j) by {
        if crate::text::part_at(low, needle, j) {
            if j + n <= at + 1 {
                assert(low_rest.subrange(j, j + n) =~= needle) by {
                    assert forall|k: int| 0 <= k < n implies low_rest[j + k] == needle[k] by {
                        assert(low.subrange(j, j + n)[k] == needle[k]);
                        assert(rest[j + k] == text[j + k]);
                    }
                }
                assert(crate::text::part_at(low_rest, needle, j));
            } else {
                let k = at - j;
                assert(low.subrange(j, j + n)[k] == needle[k]);
                assert(text[at] == ' ');
                assert(needle[k] == crate::unicode::lower_of(word[k - 1]));
                assert(!crate::text::is_white(word[k - 1]));
            }
        }
    }
    crate::search::law_first_by_characters(low, needle, at);
    assert(low.take(at) =~= crate::unicode::lowered(before));
}

/// A word in ASCII without whitespace in it.
pub open spec fn is_ascii_word(word: Seq<char>) -> bool {
    is_ascii_chars(word) && forall|i: int|
        0 <= i < word.len() ==> !crate::text::is_white(#[trigger] word[i])
}

/// An ASCII text is a plain one.
proof fn lemma_ascii_is_plain(text: Seq<char>)
    requires
        is_ascii_chars(text),
    ensures
        crate::unicode::is_plain_text(text),
        encode_utf8(text).len() == text.len(),
        encode_utf8(crate::unicode::lowered(text)).len() == text.len(),
{
    is_ascii_chars_encode_utf8(text);
    assert forall|i: int| 0 <= i < text.len() implies crate::unicode::is_plain(
        #[trigger] text[i],
    ) by {
        assert('\0' <= text[i] <= '\u{7f}');
    }
    lemma_lowered_bytes(text);
}

/// Where a part stands in a text, there is a first place where it does.
proof fn lemma_first_part(s: Seq<char>, part: Seq<char>, j: int) -> (i: int)
    requires
        crate::text::part_at(s, part, j),
    ensures
        crate::text::part_at(s, part, i),
        forall|k: int| 0 <= k < i ==> !crate::text::part_at(s, part, k),
    decreases j,
{
    if exists|k: int| 0 <= k < j && crate::text::part_at(s, part, k) {
        let k = choose|k: int| 0 <= k < j && crate::text::part_at(s, part, k);
        lemma_first_part(s, part, k)
    } else {
        j
    }
}

/// An ASCII text can be cut anywhere, and ASCII is left.
proof fn lemma_ascii_cut(text: Seq<char>, start: int, end: int)
    requires
        is_ascii_chars(text),
        0 <= start <= end <= text.len(),
    ensures
        crate::search::can_cut(text, start, end),
        crate::search::cut(text, start, end) == text.take(start) + seq![' '] + text.skip(end),
        is_ascii_chars(crate::search::cut(text, start, end)),
{
    let before = text.take(start);
    let middle = text.subrange(start, end);
    let after = text.skip(end);
    assert(before + middle + after =~= text);
    assert(is_ascii_chars(before));
    assert(is_ascii_chars(middle));
    is_ascii_chars_encode_utf8(before);
    is_ascii_chars_encode_utf8(middle);
    crate::search::lemma_cut_middle(before, middle, after);
}

/// The padded `word` stands nowhere in `text` before `at`, where a space stands
/// and behind which there is room for it.
spec fn is_next_cut(text: Seq<char>, word: Seq<char>, at: int) -> bool {
    &&& is_ascii_chars(text)
    &&& 0 <= at
    &&& at + padded(word).len() <= text.len()
    &&& text[at] == ' '
    &&& forall|j: int|
        0 <= j < at ==> !crate::text::part_at(
            crate::unicode::lowered(text),
            crate::unicode::lowered(padded(word)),
            j,
        )
}

/// In an ASCII text the first cut can be made where the word was found.
proof fn lemma_first_cut(text: Seq<char>, word: Seq<char>, at: int)
    requires
        is_ascii_chars(text),
        is_ascii_word(word),
        crate::search::first_at(
            encode_utf8(crate::unicode::lowered(text)),
            encode_utf8(crate::unicode::lowered(padded(word))),
        ) == Some(at),
    ensures
        is_next_cut(text, word, at),
{
    let low = crate::unicode::lowered(text);
    let needle = crate::unicode::lowered(padded(word));
    crate::search::law_occurs_by_characters(low, needle);
    let i = lemma_first_part(low, needle, choose|j: int| crate::text::part_at(low, needle, j));
    crate::search::law_first_by_characters(low, needle, i);
    let head = text.take(i);
    assert(is_ascii_chars(head));
    lemma_ascii_is_plain(head);
    assert(low.take(i) =~= crate::unicode::lowered(head));
    assert(low.subrange(i, i + needle.len())[0] == needle[0]);
    assert(padded(word)[0] == ' ');
    assert('\0' <= text[i] <= '\u{7f}');
}

/// After a cut the word stands nowhere before it still, so that where it stands
/// anywhere the next cut can be made.
proof fn lemma_next_cut(text: Seq<char>, word: Seq<char>, at: int)
    requires
        is_ascii_word(word),
        is_next_cut(text, word, at),
    ensures
        ({
            let next = crate::search::cut(text, at, at + padded(word).len());
            &&& crate::search::can_cut(text, at, at + padded(word).len())
            &&& is_ascii_chars(next)
            &&& crate::text::has_part(
                crate::unicode::lowered(next),
                crate::unicode::lowered(padded(word)),
            ) ==> is_next_cut(next, word, at)
        }),
{
    let n = padded(word).len() as int;
    lemma_ascii_cut(text, at, at + n);
    let next = crate::search::cut(text, at, at + n);
    let low = crate::unicode::lowered(text);
    let low_next = crate::unicode::lowered(next);
    let needle = crate::unicode::lowered(padded(word));
    assert forall|j: int| 0 <= j < at implies !crate::text::part_at(low_next, needle, j) by {
        if crate::text::part_at(low_next, needle, j) {
            if j + n <= at + 1 {
                assert(low.subrange(j, j + n) =~= needle) by {
                    assert forall|k: int| 0 <= k < n implies low[j + k] == needle[k] by {
                        assert(low_next.subrange(j, j + n)[k] == needle[k]);
                        assert(next[j + k] == text[j + k]);
                    }
                }
                assert(crate::text::part_at(low, needle, j));
            } else {
                let k = at - j;
                assert(low_next.subrange(j, j + n)[k] == needle[k]);
                assert(next[at] == ' ');
                assert(padded(word)[k] == word[k - 1]);
                assert(!crate::text::is_white(word[k - 1]));
            }
        }
    }
    if crate::text::has_part(low_next, needle) {
        let j = choose|j: int| crate::text::part_at(low_next, needle, j);
        assert(j >= at);
    }
}

/// `piece` is one of the `words`, letter case aside.
pub open spec fn is_listed(piece: Seq<char>, words: Seq<Seq<char>>) -> bool {
    exists|i: int|
        0 <= i < words.len() && crate::unicode::lowered(piece) == crate::unicode::lowered(
            #[trigger] words[i],
        )
}

/// The pieces that are none of the `words`, in order.
pub open spec fn unlisted(pieces: Seq<Seq<char>>, words: Seq<Seq<char>>) -> Seq<Seq<char>> {
    pieces.filter(|p: Seq<char>| !is_listed(p, words))
}

/// The pieces that have a space on either side: all but the first and the last.
pub open spec fn inner(pieces: Seq<Seq<char>>) -> Seq<Seq<char>> {
    if pieces.len() < 2 {
        Seq::empty()
    } else {
        pieces.subrange(1, pieces.len() - 1)
    }
}

/// The pieces without those inner ones that are one of the `words`.
pub open spec fn kept(pieces: Seq<Seq<char>>, words: Seq<Seq<char>>) -> Seq<Seq<char>> {
    if pieces.len() < 2 {
        pieces
    } else {
        seq![pieces[0]] + unlisted(inner(pieces), words) + seq![pieces.last()]
    }
}

/// No two inner pieces are `word`, letter case aside.
pub open spec fn at_most_once(pieces: Seq<Seq<char>>, word: Seq<char>) -> bool {
    forall|i: int, j: int|
        0 < i < j < pieces.len() - 1 ==> !(crate::unicode::lowered(#[trigger] pieces[i])
            == crate::unicode::lowered(word) && crate::unicode::lowered(#[trigger] pieces[j])
            == crate::unicode::lowered(word))
}

/// A plain word without whitespace in it.
pub open spec fn is_plain_word(word: Seq<char>) -> bool {
    crate::unicode::is_plain_text(word) && forall|i: int|
        0 <= i < word.len() ==> !crate::text::is_white(#[trigger] word[i])
}

/// A plain text between whose spaces each of the plain `words` stands at most
/// once, letter case aside.
pub open spec fn is_clear(text: Seq<char>, words: Seq<Seq<char>>) -> bool {
    &&& crate::unicode::is_plain_text(text)
    &&& forall|i: int|
        0 <= i < words.len() ==> is_plain_word(#[trigger] words[i]) && at_most_once(
            crate::text::pieces(text, ' '),
            words[i],
        )
}

proof fn lemma_unlisted_push(pieces: Seq<Seq<char>>, piece: Seq<char>, words: Seq<Seq<char>>)
    ensures
        unlisted(pieces.push(piece), words) == if is_listed(piece, words) {
            unlisted(pieces, words)
        } else {
            unlisted(pieces, words).push(piece)
        },
{
    reveal(Seq::filter);
    assert(pieces.push(piece).drop_last() =~= pieces);
}

proof fn lemma_unlisted_none(words: Seq<Seq<char>>)
    ensures
        unlisted(Seq::empty(), words) == Seq::<Seq<char>>::empty(),
{
    reveal(Seq::filter);
    assert(unlisted(Seq::empty(), words) =~= Seq::<Seq<char>>::empty());
}

proof fn lemma_unlisted_apart(a: Seq<Seq<char>>, b: Seq<Seq<char>>, words: Seq<Seq<char>>)
    ensures
        unlisted(a + b, words) == unlisted(a, words) + unlisted(b, words),
    decreases b.len(),
{
    if b.len() == 0 {
        lemma_unlisted_none(words);
        assert(a + b =~= a);
        assert(b =~= Seq::empty());
        assert(unlisted(a, words) + unlisted(b, words) =~= unlisted(a, words));
    } else {
        let init = b.drop_last();
        lemma_unlisted_apart(a, init, words);
        assert(init.push(b.last()) =~= b);
        assert((a + init).push(b.last()) =~= a + b);
        lemma_unlisted_push(a + init, b.last(), words);
        lemma_unlisted_push(init, b.last(), words);
        assert(unlisted(a + b, words) =~= unlisted(a, words) + unlisted(b, words));
    }
}

/// Pieces none of which is listed are all kept.
proof fn lemma_unlisted_all(pieces: Seq<Seq<char>>, words: Seq<Seq<char>>)
    requires
        forall|i: int| 0 <= i < pieces.len() ==> !is_listed(#[trigger] pieces[i], words),
    ensures
        unlisted(pieces, words) == pieces,
    decreases pieces.len(),
{
    if pieces.len() == 0 {
        lemma_unlisted_none(words);
        assert(pieces =~= Seq::empty());
    } else {
        let init = pieces.drop_last();
        assert forall|i: int| 0 <= i < init.len() implies !is_listed(#[trigger] init[i], words) by {
            assert(init[i] == pieces[i]);
        }
        lemma_unlisted_all(init, words);
        assert(init.push(pieces.last()) =~= pieces);
        assert(!is_listed(pieces[pieces.len() - 1], words));
        lemma_unlisted_push(init, pieces.last(), words);
    }
}

proof fn lemma_listed_push(piece: Seq<char>, words: Seq<Seq<char>>, word: Seq<char>)
    ensures
        is_listed(piece, words.push(word)) <==> is_listed(piece, words) || is_listed(
            piece,
            seq![word],
        ),
        is_listed(piece, seq![word]) <==> crate::unicode::lowered(piece)
            == crate::unicode::lowered(word),
        !is_listed(piece, Seq::empty()),
{
    let all = words.push(word);
    assert(all[words.len() as int] == word);
    assert(seq![word][0] == word);
    if is_listed(piece, words) {
        let i = choose|i: int|
            0 <= i < words.len() && crate::unicode::lowered(piece) == crate::unicode::lowered(
                #[trigger] words[i],
            );
        assert(all[i] == words[i]);
    }
    if is_listed(piece, all) {
        let i = choose|i: int|
            0 <= i < all.len() && crate::unicode::lowered(piece) == crate::unicode::lowered(
                #[trigger] all[i],
            );
        if i < words.len() {
            assert(all[i] == words[i]);
        }
    }
}

/// Leaving out the words of a longer list is leaving out the last of them from
/// what the others leave.
proof fn lemma_unlisted_twice(pieces: Seq<Seq<char>>, words: Seq<Seq<char>>, word: Seq<char>)
    ensures
        unlisted(unlisted(pieces, words), seq![word]) == unlisted(pieces, words.push(word)),
    decreases pieces.len(),
{
    if pieces.len() == 0 {
        assert(pieces =~= Seq::empty());
        lemma_unlisted_none(words);
        lemma_unlisted_none(words.push(word));
        lemma_unlisted_none(seq![word]);
    } else {
        let init = pieces.drop_last();
        let last = pieces.last();
        assert(init.push(last) =~= pieces);
        lemma_unlisted_twice(init, words, word);
        lemma_unlisted_push(init, last, words);
        lemma_unlisted_push(init, last, words.push(word));
        lemma_unlisted_push(unlisted(init, words), last, seq![word]);
        lemma_listed_push(last, words, word);
    }
}

/// What is left of some pieces is among them.
proof fn lemma_unlisted_among(pieces: Seq<Seq<char>>, words: Seq<Seq<char>>, i: int) -> (k: int)
    requires
        0 <= i < unlisted(pieces, words).len(),
    ensures
        0 <= k < pieces.len(),
        unlisted(pieces, words)[i] == pieces[k],
    decreases pieces.len(),
{
    if pieces.len() == 0 {
        lemma_unlisted_none(words);
        assert(pieces =~= Seq::empty());
        0
    } else {
        let init = pieces.drop_last();
        assert(init.push(pieces.last()) =~= pieces);
        lemma_unlisted_push(init, pieces.last(), words);
        if i < unlisted(init, words).len() {
            lemma_unlisted_among(init, words, i)
        } else {
            pieces.len() - 1
        }
    }
}

/// Two pieces that are left, one behind the other, stood so before.
proof fn lemma_unlisted_order(
    pieces: Seq<Seq<char>>,
    words: Seq<Seq<char>>,
    i: int,
    j: int,
) -> (k: (int, int))
    requires
        0 <= i < j < unlisted(pieces, words).len(),
    ensures
        0 <= k.0 < k.1 < pieces.len(),
        unlisted(pieces, words)[i] == pieces[k.0],
        unlisted(pieces, words)[j] == pieces[k.1],
    decreases pieces.len(),
{
    if pieces.len() == 0 {
        lemma_unlisted_none(words);
        assert(pieces =~= Seq::empty());
        (0, 0)
    } else {
        let init = pieces.drop_last();
        assert(init.push(pieces.last()) =~= pieces);
        lemma_unlisted_push(init, pieces.last(), words);
        if j < unlisted(init, words).len() {
            lemma_unlisted_order(init, words, i, j)
        } else {
            (lemma_unlisted_among(init, words, i), pieces.len() - 1)
        }
    }
}

/// Texts put together with spaces, in small letters, are the small letters of
/// each put together.
proof fn lemma_lowered_join(parts: Seq<Seq<char>>)
    ensures
        crate::unicode::lowered(crate::text::join(parts, ' ')) == crate::text::join(
            parts.map_values(|p: Seq<char>| crate::unicode::lowered(p)),
            ' ',
        ),
    decreases parts.len(),
{
    let f = |p: Seq<char>| crate::unicode::lowered(p);
    if parts.len() > 1 {
        let init = parts.drop_last();
        lemma_lowered_join(init);
        assert(parts.map_values(f).drop_last() =~= init.map_values(f));
        assert(crate::unicode::lowered(crate::text::join(init, ' ').push(' ') + parts.last())
            =~= crate::unicode::lowered(crate::text::join(init, ' ')).push(' ')
            + crate::unicode::lowered(parts.last()));
    } else if parts.len() == 0 {
        assert(crate::unicode::lowered(crate::text::join(parts, ' ')) =~= Seq::empty());
    }
}

/// A word without spaces stands in a text between spaces only as an inner piece.
proof fn lemma_part_is_piece(parts: Seq<Seq<char>>, word: Seq<char>)
    requires
        parts.len() > 0,
        forall|i: int| 0 <= i < parts.len() ==> crate::text::lacks(#[trigger] parts[i], ' '),
        is_plain_word(word),
        crate::text::has_part(
            crate::unicode::lowered(crate::text::join(parts, ' ')),
            padded(crate::unicode::lowered(word)),
        ),
    ensures
        exists|k: int|
            0 < k < parts.len() - 1 && crate::unicode::lowered(#[trigger] parts[k])
                == crate::unicode::lowered(word),
{
    let f = |p: Seq<char>| crate::unicode::lowered(p);
    let lows = parts.map_values(f);
    let low = crate::text::join(lows, ' ');
    let w = crate::unicode::lowered(word);
    lemma_lowered_join(parts);
    crate::text::law_has_part(low, padded(w));
    let (a, b) = choose|a: Seq<char>, b: Seq<char>| low == #[trigger] (a + padded(w) + b);
    assert(low =~= a + seq![' '] + (w + seq![' '] + b));
    assert forall|i: int| 0 <= i < lows.len() implies crate::text::lacks(#[trigger] lows[i], ' ') by {
        assert(crate::text::lacks(parts[i], ' '));
        assert forall|j: int| 0 <= j < lows[i].len() implies #[trigger] lows[i][j] != ' ' by {
            assert(parts[i][j] != ' ');
            assert(lows[i][j] == crate::unicode::lower_of(parts[i][j]));
        }
    }
    assert forall|j: int| 0 <= j < w.len() implies #[trigger] w[j] != ' ' by {
        assert(!crate::text::is_white(word[j]));
        assert(w[j] == crate::unicode::lower_of(word[j]));
    }
    crate::text::law_pieces_of_join(lows, ' ');
    crate::text::law_pieces_apart(a, w + seq![' '] + b, ' ');
    crate::text::law_pieces_apart(w, b, ' ');
    crate::text::law_pieces(a, ' ');
    crate::text::law_pieces(b, ' ');
    let k = crate::text::pieces(a, ' ').len() as int;
    let found = crate::text::pieces(a, ' ') + (seq![w] + crate::text::pieces(b, ' '));
    assert(lows == found);
    assert(found[k] == w);
    assert(lows[k] == crate::unicode::lowered(parts[k]));
    assert(0 < k < parts.len() - 1);
}

/// The pieces of a text hold no space, and put together they are the text.
proof fn lemma_pieces_of(text: Seq<char>)
    ensures
        crate::text::pieces(text, ' ').len() > 0,
        crate::text::join(crate::text::pieces(text, ' '), ' ') == text,
        forall|i: int|
            0 <= i < crate::text::pieces(text, ' ').len() ==> crate::text::lacks(
                #[trigger] crate::text::pieces(text, ' ')[i],
                ' ',
            ),
{
    crate::text::law_pieces(text, ' ');
}

/// Texts put together with spaces are plain exactly where each of them is.
proof fn lemma_plain_join(parts: Seq<Seq<char>>)
    ensures
        crate::unicode::is_plain_text(crate::text::join(parts, ' ')) <==> forall|i: int|
            0 <= i < parts.len() ==> crate::unicode::is_plain_text(#[trigger] parts[i]),
    decreases parts.len(),
{
    let whole = crate::text::join(parts, ' ');
    if parts.len() == 1 {
        assert(whole == parts[0]);
    } else if parts.len() > 1 {
        let init = parts.drop_last();
        let last = parts.last();
        lemma_plain_join(init);
        let head = crate::text::join(init, ' ');
        assert(whole == head.push(' ') + last);
        assert(crate::unicode::is_plain(' '));
        if crate::unicode::is_plain_text(whole) {
            assert forall|i: int| 0 <= i < head.len() implies crate::unicode::is_plain(
                #[trigger] head[i],
            ) by {
                assert(whole[i] == head[i]);
            }
            assert forall|i: int| 0 <= i < last.len() implies crate::unicode::is_plain(
                #[trigger] last[i],
            ) by {
                assert(whole[head.len() + 1 + i] == last[i]);
            }
            assert forall|i: int| 0 <= i < parts.len() implies crate::unicode::is_plain_text(
                #[trigger] parts[i],
            ) by {
                if i < init.len() {
                    assert(init[i] == parts[i]);
                }
            }
        }
        if forall|i: int|
            0 <= i < parts.len() ==> crate::unicode::is_plain_text(#[trigger] parts[i]) {
            assert forall|i: int| 0 <= i < init.len() implies crate::unicode::is_plain_text(
                #[trigger] init[i],
            ) by {
                assert(init[i] == parts[i]);
            }
            assert(crate::unicode::is_plain_text(parts[parts.len() - 1]));
            assert forall|i: int| 0 <= i < whole.len() implies crate::unicode::is_plain(
                #[trigger] whole[i],
            ) by {
                if i < head.len() {
                    assert(whole[i] == head[i]);
                } else if i > head.len() {
                    assert(whole[i] == last[i - head.len() - 1]);
                }
            }
        }
    }
}

/// What is kept of the pieces of a text are the pieces of what they make.
proof fn lemma_kept_pieces(text: Seq<char>, words: Seq<Seq<char>>)
    ensures
        ({
            let parts = kept(crate::text::pieces(text, ' '), words);
            let rest = crate::text::join(parts, ' ');
            &&& crate::text::pieces(rest, ' ') == parts
            &&& crate::unicode::is_plain_text(text) ==> crate::unicode::is_plain_text(rest)
        }),
{
    let all = crate::text::pieces(text, ' ');
    lemma_pieces_of(text);
    lemma_plain_join(all);
    let parts = kept(all, words);
    lemma_plain_join(parts);
    let left = unlisted(inner(all), words);
    assert forall|i: int| 0 <= i < parts.len() implies crate::text::lacks(#[trigger] parts[i], ' ')
        && (crate::unicode::is_plain_text(text) ==> crate::unicode::is_plain_text(parts[i])) by {
        if all.len() >= 2 {
            if i == 0 {
                assert(parts[i] == all[0]);
            } else if i == parts.len() - 1 {
                assert(parts[i] == all[all.len() - 1]);
            } else {
                let k = lemma_unlisted_among(inner(all), words, i - 1);
                assert(parts[i] == left[i - 1]);
                assert(inner(all)[k] == all[k + 1]);
            }
        } else {
            assert(parts[i] == all[i]);
        }
    }
    crate::text::law_pieces_of_join(parts, ' ');
}

/// A word that stood at most once among the pieces does so among what is kept.
proof fn lemma_kept_once(pieces: Seq<Seq<char>>, words: Seq<Seq<char>>, word: Seq<char>)
    requires
        at_most_once(pieces, word),
    ensures
        at_most_once(kept(pieces, words), word),
{
    let parts = kept(pieces, words);
    if pieces.len() >= 2 {
        let left = unlisted(inner(pieces), words);
        assert forall|i: int, j: int| 0 < i < j < parts.len() - 1 implies !(
        crate::unicode::lowered(#[trigger] parts[i]) == crate::unicode::lowered(word)
            && crate::unicode::lowered(#[trigger] parts[j]) == crate::unicode::lowered(word)) by {
            let k = lemma_unlisted_order(inner(pieces), words, i - 1, j - 1);
            assert(parts[i] == left[i - 1] && parts[j] == left[j - 1]);
            assert(inner(pieces)[k.0] == pieces[k.0 + 1]);
            assert(inner(pieces)[k.1] == pieces[k.1 + 1]);
        }
    }
}

/// Keeping with a longer list is keeping with its last word what the others keep.
proof fn lemma_kept_twice(pieces: Seq<Seq<char>>, words: Seq<Seq<char>>, word: Seq<char>)
    ensures
        kept(kept(pieces, words), seq![word]) == kept(pieces, words.push(word)),
{
    if pieces.len() >= 2 {
        let parts = kept(pieces, words);
        assert(inner(parts) =~= unlisted(inner(pieces), words));
        lemma_unlisted_twice(inner(pieces), words, word);
        assert(kept(parts, seq![word]) =~= kept(pieces, words.push(word)));
    }
}

/// Nothing is left out for an empty list.
proof fn lemma_kept_all(pieces: Seq<Seq<char>>)
    ensures
        kept(pieces, Seq::empty()) == pieces,
{
    assert forall|i: int| 0 <= i < inner(pieces).len() implies !is_listed(
        #[trigger] inner(pieces)[i],
        Seq::empty(),
    ) by {
        lemma_listed_push(inner(pieces)[i], Seq::empty(), Seq::empty());
    }
    lemma_unlisted_all(inner(pieces), Seq::empty());
    assert(kept(pieces, Seq::empty()) =~= pieces);
}

/// Where a word stands as no inner piece it does not stand in the text, and
/// every piece is kept.
proof fn lemma_no_piece(text: Seq<char>, word: Seq<char>)
    requires
        is_plain_word(word),
        forall|k: int|
            0 < k < crate::text::pieces(text, ' ').len() - 1 ==> crate::unicode::lowered(
                #[trigger] crate::text::pieces(text, ' ')[k],
            ) != crate::unicode::lowered(word),
    ensures
        !crate::text::has_part(
            crate::unicode::lowered(text),
            padded(crate::unicode::lowered(word)),
        ),
        crate::text::join(kept(crate::text::pieces(text, ' '), seq![word]), ' ') == text,
{
    let parts = crate::text::pieces(text, ' ');
    lemma_pieces_of(text);
    if crate::text::has_part(
        crate::unicode::lowered(text),
        padded(crate::unicode::lowered(word)),
    ) {
        lemma_part_is_piece(parts, word);
    }
    assert forall|i: int| 0 <= i < inner(parts).len() implies !is_listed(
        #[trigger] inner(parts)[i],
        seq![word],
    ) by {
        assert(inner(parts)[i] == parts[i + 1]);
        lemma_listed_push(parts[i + 1], Seq::empty(), word);
    }
    lemma_unlisted_all(inner(parts), seq![word]);
    assert(kept(parts, seq![word]) =~= parts);
}

/// Where a word stands as one inner piece and no other, it is a single filler,
/// and the other pieces are what is kept.
proof fn lemma_one_piece_is_single(text: Seq<char>, word: Seq<char>, k: int)
    requires
        crate::unicode::is_plain_text(text),
        is_plain_word(word),
        at_most_once(crate::text::pieces(text, ' '), word),
        0 < k < crate::text::pieces(text, ' ').len() - 1,
        crate::unicode::lowered(crate::text::pieces(text, ' ')[k]) == crate::unicode::lowered(word),
    ensures
        ({
            let parts = crate::text::pieces(text, ' ');
            let before = crate::text::join(parts.take(k), ' ');
            let after = crate::text::join(parts.skip(k + 1), ' ');
            &&& text == before + padded(parts[k]) + after
            &&& is_single_filler(before, parts[k], after, word)
            &&& crate::text::join(kept(parts, seq![word]), ' ') == before + seq![' '] + after
        }),
{
    let parts = crate::text::pieces(text, ' ');
    let head = parts.take(k);
    let tail = parts.skip(k + 1);
    let before = crate::text::join(head, ' ');
    let after = crate::text::join(tail, ' ');
    lemma_pieces_of(text);
    lemma_plain_join(parts);
    lemma_plain_join(head);
    lemma_plain_join(tail);
    assert forall|i: int| 0 <= i < head.len() implies crate::unicode::is_plain_text(
        #[trigger] head[i],
    ) by {
        assert(head[i] == parts[i]);
    }
    assert forall|i: int| 0 <= i < tail.len() implies crate::unicode::is_plain_text(
        #[trigger] tail[i],
    ) by {
        assert(tail[i] == parts[k + 1 + i]);
    }
    assert(crate::unicode::is_plain_text(parts[k]));
    assert(parts =~= head + (seq![parts[k]] + tail));
    crate::text::law_join(seq![parts[k]], tail, parts[k], ' ');
    crate::text::law_join(head, seq![parts[k]] + tail, parts[k], ' ');
    assert(text =~= before + padded(parts[k]) + after);
    let others = head + tail;
    crate::text::law_join(head, tail, parts[k], ' ');
    assert forall|i: int| 0 <= i < others.len() implies crate::text::lacks(
        #[trigger] others[i],
        ' ',
    ) by {
        if i < k {
            assert(others[i] == parts[i]);
        } else {
            assert(others[i] == parts[i + 1]);
        }
    }
    if crate::text::has_part(
        crate::unicode::lowered(before + seq![' '] + after),
        padded(crate::unicode::lowered(word)),
    ) {
        lemma_part_is_piece(others, word);
        let j = choose|j: int|
            0 < j < others.len() - 1 && crate::unicode::lowered(#[trigger] others[j])
                == crate::unicode::lowered(word);
        if j < k {
            assert(others[j] == parts[j]);
        } else {
            assert(others[j] == parts[j + 1]);
        }
    }
    let a = parts.subrange(1, k);
    let b = parts.subrange(k + 1, parts.len() - 1);
    assert(inner(parts) =~= a + (seq![parts[k]] + b));
    lemma_unlisted_apart(a, seq![parts[k]] + b, seq![word]);
    lemma_unlisted_apart(seq![parts[k]], b, seq![word]);
    assert forall|i: int| 0 <= i < a.len() implies !is_listed(#[trigger] a[i], seq![word]) by {
        assert(a[i] == parts[i + 1]);
        lemma_listed_push(a[i], Seq::empty(), word);
    }
    assert forall|i: int| 0 <= i < b.len() implies !is_listed(#[trigger] b[i], seq![word]) by {
        assert(b[i] == parts[k + 1 + i]);
        lemma_listed_push(b[i], Seq::empty(), word);
    }
    lemma_unlisted_all(a, seq![word]);
    lemma_unlisted_all(b, seq![word]);
    lemma_listed_push(parts[k], Seq::empty(), word);
    lemma_unlisted_none(seq![word]);
    assert(Seq::<Seq<char>>::empty().push(parts[k]) =~= seq![parts[k]]);
    lemma_unlisted_push(Seq::empty(), parts[k], seq![word]);
    assert(kept(parts, seq![word]) =~= others);
}

/// Takes the filler `word` out of `text`. `None` where a cut would leave no text,
/// which is never so with a text and a word in ASCII, where the word has no
/// whitespace in it. Of a plain text in which the word stands once, in any letter
/// case, what stood before and after it is left, with one space between.
pub fn remove_word(text: &str, word: &str) -> (r: Option<String>)
    ensures
        match r {
            Some(s) => strip_word(text@, word@) == Some(s@),
            None => strip_word(text@, word@) is None,
        },
        text@.len() == 0 ==> r is Some && r->0@.len() == 0,
        forall|before: Seq<char>, found: Seq<char>, after: Seq<char>| #[trigger]
            is_single_filler(before, found, after, word@) && text@ == before + padded(found)
                + after ==> r is Some && r->0@ == before + seq![' '] + after,
        is_ascii_chars(text@) && is_ascii_word(word@) ==> r is Some && is_ascii_chars(r->0@),
        is_clear(text@, seq![word@]) ==> r is Some && r->0@ == crate::text::join(
            kept(crate::text::pieces(text@, ' '), seq![word@]),
            ' ',
        ),
{
    let mut pattern: String = String::new();
    pattern.push(' ');
    pattern.append(word);
    pattern.push(' ');
    assert(pattern@ =~= padded(word@));
    let needle: String = to_lowercase(pattern.as_str());
    let lower: String = to_lowercase(text);
    let len: usize = pattern.as_str().as_bytes().len();
    let ghost parts = crate::text::pieces(text@, ' ');
    let ghost goal = crate::text::join(kept(parts, seq![word@]), ' ');
    let ghost k = choose|k: int|
        0 < k < parts.len() - 1 && crate::unicode::lowered(#[trigger] parts[k])
            == crate::unicode::lowered(word@);
    let ghost head = crate::text::join(parts.take(k), ' ');
    let ghost tail = crate::text::join(parts.skip(k + 1), ' ');
    proof {
        if is_clear(text@, seq![word@]) {
            assert(is_plain_word(seq![word@][0]) && at_most_once(parts, seq![word@][0]));
            lemma_plain_padded(word@);
            lemma_lowered_padded(word@);
            if 0 < k < parts.len() - 1 && crate::unicode::lowered(parts[k])
                == crate::unicode::lowered(word@) {
                lemma_one_piece_is_single(text@, word@, k);
            } else {
                lemma_no_piece(text@, word@);
                crate::search::law_occurs_by_characters(lower@, needle@);
            }
        }
        assert forall|before: Seq<char>, found: Seq<char>, after: Seq<char>| #[trigger]
            is_single_filler(before, found, after, word@) && text@ == before + padded(found)
                + after implies crate::search::first_at(encode_utf8(lower@), encode_utf8(needle@))
            == Some(encode_utf8(before).len() as int) by {
            lemma_single_filler(before, found, after, word@);
        }
    }
    let at: usize = match find(lower.as_str(), needle.as_str()) {
        Some(at) => at,
        None => {
            return Some(text.to_owned());
        },
    };
    proof {
        assert forall|before: Seq<char>, found: Seq<char>, after: Seq<char>| #[trigger]
            is_single_filler(before, found, after, word@) && text@ == before + padded(found)
                + after implies crate::search::can_cut(text@, at as int, at + len)
            && crate::search::cut(text@, at as int, at + len) == before + seq![' '] + after by {
            lemma_single_filler(before, found, after, word@);
            crate::search::lemma_cut_middle(before, padded(found), after);
        }
        if is_ascii_chars(text@) && is_ascii_word(word@) {
            lemma_ascii_is_plain(text@);
            assert(is_ascii_chars(padded(word@)));
            lemma_ascii_is_plain(padded(word@));
            lemma_first_cut(text@, word@, at as int);
        }
        if text@.len() == 0 {
            crate::search::lemma_no_empty_match(lower@, needle@);
        }
    }
    let mut rest: String = text.to_owned();
    loop
        invariant
            strip_at(rest@, word@, at as int) == strip_word(text@, word@),
            needle@ == crate::unicode::lowercase(padded(word@)),
            len == encode_utf8(padded(word@)).len(),
            text@.len() != 0,
            crate::unicode::is_plain_text(padded(word@)) ==> needle@ == crate::unicode::lowered(
                padded(word@),
            ),
            forall|before: Seq<char>, found: Seq<char>, after: Seq<char>| #[trigger]
                is_single_filler(before, found, after, word@) && text@ == before + padded(found)
                    + after ==> rest@ == text@ && crate::search::can_cut(
                    rest@,
                    at as int,
                    at + len,
                ) && crate::search::cut(rest@, at as int, at + len) == before + seq![' ']
                    + after,
            is_ascii_chars(text@) && is_ascii_word(word@) ==> is_next_cut(rest@, word@, at as int)
                && len == padded(word@).len(),
            goal == crate::text::join(kept(crate::text::pieces(text@, ' '), seq![word@]), ' '),
            is_clear(text@, seq![word@]) ==> is_single_filler(head, parts[k], tail, word@) && text@
                == head + padded(parts[k]) + tail && goal == head + seq![' '] + tail,
        decreases encode_utf8(rest@).len(),
    {
        let size: usize = rest.as_str().as_bytes().len();
        proof {
            if is_ascii_chars(text@) && is_ascii_word(word@) {
                is_ascii_chars_encode_utf8(rest@);
                lemma_next_cut(rest@, word@, at as int);
            }
        }
        if len > size || at > size - len {
            assert(!crate::search::can_cut(rest@, at as int, at + len)) by {
                if crate::search::can_cut(rest@, at as int, at + len) {
                    crate::search::lemma_cut_bytes(rest@, at as int, at + len);
                }
            }
            return None;
        }
        match cut_span(rest.as_str(), at, at + len) {
            None => {
                return None;
            },
            Some(next) => {
                proof {
                    crate::search::lemma_cut_bytes(rest@, at as int, at + len);
                    lemma_padded_bytes(word@);
                }
                let next_lower: String = to_lowercase(next.as_str());
                proof {
                    if is_ascii_chars(text@) && is_ascii_word(word@) {
                        assert(is_ascii_chars(padded(word@)));
                        lemma_ascii_is_plain(padded(word@));
                        lemma_ascii_is_plain(next@);
                    }
                }
                if !contains(next_lower.as_str(), needle.as_str()) {
                    return Some(next);
                }
                assert forall|before: Seq<char>, found: Seq<char>, after: Seq<char>| #[trigger]
                    is_single_filler(before, found, after, word@) implies text@ != before + padded(
                    found,
                ) + after by {
                    lemma_single_filler(before, found, after, word@);
                }
                rest = next;
            },
        }
    }
}

/// Where a longer list of words can be taken out, so can any of its beginnings.
proof fn lemma_strip_prefix(text: Seq<char>, words: Seq<Seq<char>>, n: int)
    requires
        0 <= n <= words.len(),
        strip_words(text, words) is Some,
    ensures
        strip_words(text, words.take(n)) is Some,
    decreases words.len(),
{
    if n == words.len() {
        assert(words.take(n) =~= words);
    } else {
        assert(words.drop_last().take(n) =~= words.take(n));
        lemma_strip_prefix(text, words.drop_last(), n);
    }
}

/// Takes the filler `words` out of `text`, one after the other. `None` where a
/// cut would leave no text, which is never so with a text and words in ASCII,
/// where no word has whitespace in it. Of a plain text in which the only listed
/// word stands once, in any letter case, what stood before and after it is left.
pub fn remove_words(text: &str, words: &[String]) -> (r: Option<String>)
    ensures
        match r {
            Some(s) => strip_words(text@, crate::text::views(words@)) == Some(s@),
            None => strip_words(text@, crate::text::views(words@)) is None,
        },
        text@.len() == 0 ==> r is Some && r->0@.len() == 0,
        forall|before: Seq<char>, found: Seq<char>, after: Seq<char>, word: Seq<char>| #[trigger]
            is_single_filler(before, found, after, word) && text@ == before + padded(found) + after
                && crate::text::views(words@) == seq![word] ==> r is Some && r->0@ == before
                + seq![' '] + after,
        is_ascii_chars(text@) && (forall|i: int|
            0 <= i < words@.len() ==> is_ascii_word(#[trigger] words@[i]@)) ==> r is Some
            && is_ascii_chars(r->0@),
        is_clear(text@, crate::text::views(words@)) ==> r is Some && r->0@ == crate::text::join(
            kept(crate::text::pieces(text@, ' '), crate::text::views(words@)),
            ' ',
        ),
{
    let mut rest: String = text.to_owned();
    let mut i: usize = 0;
    proof {
        lemma_pieces_of(text@);
        lemma_kept_all(crate::text::pieces(text@, ' '));
        assert(crate::text::views(words@).take(0) =~= Seq::empty());
    }
    while i < words.len()
        invariant
            is_clear(text@, crate::text::views(words@)) ==> rest@ == crate::text::join(
                kept(crate::text::pieces(text@, ' '), crate::text::views(words@).take(i as int)),
                ' ',
            ),
            i <= words@.len(),
            strip_words(text@, crate::text::views(words@).take(i as int)) == Some(rest@),
            text@.len() == 0 ==> rest@.len() == 0,
            i == 0 ==> rest@ == text@,
            is_ascii_chars(text@) && (forall|j: int|
                0 <= j < words@.len() ==> is_ascii_word(#[trigger] words@[j]@)) ==> is_ascii_chars(
                rest@,
            ),
            forall|before: Seq<char>, found: Seq<char>, after: Seq<char>, word: Seq<char>|
                #[trigger]
                is_single_filler(before, found, after, word) && text@ == before + padded(found)
                    + after && crate::text::views(words@) == seq![word] && i > 0 ==> rest@
                    == before + seq![' '] + after,
        decreases words@.len() - i,
    {
        let ghost all = crate::text::views(words@);
        proof {
            assert(all.take(i + 1).drop_last() =~= all.take(i as int));
            assert(all.take(i + 1).last() == words@[i as int]@);
            assert(all[i as int] == words@[i as int]@);
            assert(all.len() == words@.len());
            if is_clear(text@, all) {
                let parts = crate::text::pieces(text@, ' ');
                let done = all.take(i as int);
                let word = all[i as int];
                assert(is_plain_word(word) && at_most_once(parts, word));
                lemma_kept_pieces(text@, done);
                lemma_kept_once(parts, done, word);
                lemma_kept_twice(parts, done, word);
                assert(done.push(word) =~= all.take(i + 1));
                assert forall|n: int| 0 <= n < seq![word].len() implies is_plain_word(
                    #[trigger] seq![word][n],
                ) && at_most_once(crate::text::pieces(rest@, ' '), seq![word][n]) by {
                    assert(seq![word][n] == word);
                }
            }
        }
        match remove_word(rest.as_str(), words[i].as_str()) {
            Some(next) => {
                rest = next;
            },
            None => {
                proof {
                    if strip_words(text@, all) is Some {
                        lemma_strip_prefix(text@, all, i + 1);
                    }
                }
                return None;
            },
        }
        i = i + 1;
    }
    assert(crate::text::views(words@).take(words@.len() as int) =~= crate::text::views(words@));
    Some(rest)
}

/// `text` with `first` in place of its first character.
pub open spec fn with_first(text: Seq<char>, first: Seq<char>) -> Seq<char> {
    if text.len() == 0 {
        text
    } else {
        first + text.skip(1)
    }
}

/// A mark that ends a sentence.
pub open spec fn ends_sentence(c: char) -> bool {
    c == '.' || c == '!' || c == '?'
}

/// `text` with a full stop at its end, unless it is empty or ends a sentence.
pub open spec fn punctuated(text: Seq<char>) -> Seq<char> {
    if text.len() > 0 && !ends_sentence(text.last()) {
        text.push('.')
    } else {
        text
    }
}

/// The words of `text` one space apart.
pub open spec fn collapsed(text: Seq<char>) -> Seq<char> {
    crate::text::join(crate::text::tokens(text), ' ')
}

/// `text` as a sentence: its words one space apart, the first character in
/// uppercase, a mark at the end.
pub open spec fn as_sentence(text: Seq<char>) -> Seq<char> {
    let words = collapsed(text);
    punctuated(with_first(words, crate::unicode::uppercase(words[0])))
}

/// `raw` without the filler `words` and as a sentence. `None` where a filler
/// word cannot be taken out.
pub open spec fn cleaned(raw: Seq<char>, words: Seq<Seq<char>>) -> Option<Seq<char>> {
    match strip_words(raw, words) {
        Some(rest) => Some(as_sentence(rest)),
        None => None,
    }
}

/// Puts `first` in place of the first character of `text`.
pub fn replace_first(text: &str, first: &str) -> (r: String)
    ensures
        r@ == with_first(text@, first@),
        text@.len() == 0 ==> r@.len() == 0,
        text@.len() > 0 ==> r@ == first@ + text@.subrange(1, text@.len() as int),
{
    if text.is_empty() {
        return String::new();
    }
    let chars: Vec<char> = chars_of(text);
    let mut r: String = first.to_owned();
    let rest: String = string_of(chars.as_slice(), 1, chars.len());
    r.append(rest.as_str());
    r
}

/// Adds a full stop to a text that does not end a sentence.
pub fn punctuate(text: &str) -> (r: String)
    ensures
        r@ == punctuated(text@),
        text@.len() == 0 ==> r@.len() == 0,
        text@.len() > 0 ==> r@ == if text@.last() == '.' || text@.last() == '!' || text@.last()
            == '?' {
            text@
        } else {
            text@.push('.')
        },
{
    let mut r: String = text.to_owned();
    let chars: Vec<char> = chars_of(text);
    if chars.len() > 0 {
        let last: char = chars[chars.len() - 1];
        if last != '.' && last != '!' && last != '?' {
            r.push('.');
        }
    }
    r
}

/// Makes a sentence of the words of `text`. Its words are one space apart, and it
/// stays as it is when it is made a sentence again.
pub fn make_sentence(text: &str) -> (r: String)
    ensures
        r@ == as_sentence(text@),
        crate::text::tokens(text@).len() == 0 <==> r@.len() == 0,
        is_spaced(r@),
        as_sentence(r@) == r@,
        r@.len() > 0 ==> r@.last() == '.' || r@.last() == '!' || r@.last() == '?',
{
    let words: String = collapse_whitespace(text);
    proof {
        crate::text::law_tokens(text@);
        crate::text::lemma_join_len(crate::text::tokens(text@), ' ');
    }
    let chars: Vec<char> = chars_of(words.as_str());
    if chars.len() == 0 {
        proof {
            law_sentence_stays(text@);
        }
        return words;
    }
    let first: String = to_uppercase(chars[0]);
    proof {
        law_collapsed(text@);
        assert(!crate::text::is_white(words@[0]));
        law_sentence_stays(text@);
    }
    let capital: String = replace_first(words.as_str(), first.as_str());
    punctuate(capital.as_str())
}

/// Takes the filler words out of `raw_text` and makes a sentence of the rest:
/// words one space apart, the first character in uppercase, a mark at the end.
/// Where the only filler word stands once in a plain text, its letter case does
/// not matter; what is cleaned stays as it is when it is cleaned again.
pub fn clean_text_locally(raw_text: &str, filler_words: &[String]) -> (r: String)
    requires
        cleaned(raw_text@, crate::text::views(filler_words@)) is Some,
    ensures
        cleaned(raw_text@, crate::text::views(filler_words@)) == Some(r@),
        raw_text@.len() == 0 ==> r@.len() == 0,
        forall|before: Seq<char>, found: Seq<char>, after: Seq<char>, word: Seq<char>| #[trigger]
            is_single_filler(before, found, after, word) && raw_text@ == before + padded(found)
                + after && crate::text::views(filler_words@) == seq![word] ==> cleaned(
                before + seq![' '] + after,
                Seq::empty(),
            ) == Some(r@),
        is_spaced(r@),
        cleaned(r@, Seq::empty()) == Some(r@),
        is_clear(raw_text@, crate::text::views(filler_words@)) ==> cleaned(
            crate::text::join(
                kept(crate::text::pieces(raw_text@, ' '), crate::text::views(filler_words@)),
                ' ',
            ),
            Seq::empty(),
        ) == Some(r@),
{
    let rest: String = remove_words(raw_text, filler_words).unwrap();
    make_sentence(rest.as_str())
}

/// Cleans `raw_text` where every filler word can be taken out of it. `None`
/// where a cut at a filler word would leave no text, which is never so with a text
/// and filler words in ASCII, where no word has whitespace in it. Where the only filler word stands once in a plain
/// text, its letter case does not matter; what is cleaned stays as it is when it
/// is cleaned again.
pub fn try_clean_text(raw_text: &str, filler_words: &[String]) -> (r: Option<String>)
    ensures
        match r {
            Some(s) => cleaned(raw_text@, crate::text::views(filler_words@)) == Some(s@),
            None => cleaned(raw_text@, crate::text::views(filler_words@)) is None,
        },
        raw_text@.len() == 0 ==> r is Some && r->0@.len() == 0,
        forall|before: Seq<char>, found: Seq<char>, after: Seq<char>, word: Seq<char>| #[trigger]
            is_single_filler(before, found, after, word) && raw_text@ == before + padded(found)
                + after && crate::text::views(filler_words@) == seq![word] ==> r is Some
                && cleaned(before + seq![' '] + after, Seq::empty()) == Some(r->0@),
        r matches Some(s) ==> is_spaced(s@) && cleaned(s@, Seq::empty()) == Some(s@),
        is_ascii_chars(raw_text@) && (forall|i: int|
            0 <= i < filler_words@.len() ==> is_ascii_word(#[trigger] filler_words@[i]@))
            ==> r is Some,
        is_clear(raw_text@, crate::text::views(filler_words@)) ==> r is Some && cleaned(
            crate::text::join(
                kept(crate::text::pieces(raw_text@, ' '), crate::text::views(filler_words@)),
                ' ',
            ),
            Seq::empty(),
        ) == Some(r->0@),
{
    if remove_words(raw_text, filler_words).is_some() {
        Some(clean_text_locally(raw_text, filler_words))
    } else {
        None
    }
}

/// A filler word that stands in the text once is taken out, together with the
/// spaces around it, and one space is left in its place. `found` is the word
/// with its spaces as the text has it.
pub proof fn law_single_filler_is_removed(
    before: Seq<char>,
    found: Seq<char>,
    after: Seq<char>,
    word: Seq<char>,
)
    requires
        encode_utf8(found).len() == encode_utf8(padded(word)).len(),
        crate::search::first_at(
            encode_utf8(crate::unicode::lowercase(before + found + after)),
            encode_utf8(crate::unicode::lowercase(padded(word))),
        ) == Some(encode_utf8(before).len() as int),
        !has_filler(before + seq![' '] + after, word),
    ensures
        strip_word(before + found + after, word) == Some(before + seq![' '] + after),
{
    crate::search::lemma_cut_middle(before, found, after);
}

/// In a text without capital letters a filler word that stands there once is
/// taken out, together with the spaces around it, and one space is left in its
/// place.
pub proof fn law_lowercase_filler_is_removed(before: Seq<char>, after: Seq<char>, word: Seq<char>)
    requires
        crate::unicode::lowercase(before + padded(word) + after) == before + padded(word) + after,
        crate::unicode::lowercase(padded(word)) == padded(word),
        forall|j: int|
            0 <= j < before.len() ==> !crate::text::part_at(
                before + padded(word) + after,
                padded(word),
                j,
            ),
        !has_filler(before + seq![' '] + after, word),
    ensures
        strip_word(before + padded(word) + after, word) == Some(before + seq![' '] + after),
{
    let text = before + padded(word) + after;
    let at = before.len() as int;
    assert(text.subrange(at, at + padded(word).len()) =~= padded(word));
    assert(text.take(at) =~= before);
    crate::search::law_first_by_characters(text, padded(word), at);
    law_single_filler_is_removed(before, padded(word), after, word);
}

/// A filler word that stands in a plain text once, in any letter case, is taken
/// out, together with the spaces around it, and one space is left in its place:
/// the text is cleaned as if the word had not been there. The premises on
/// `lowercase` are what `str::to_lowercase` gives for these texts.
pub proof fn law_filler_of_any_letter_case(
    before: Seq<char>,
    found: Seq<char>,
    after: Seq<char>,
    word: Seq<char>,
)
    requires
        is_single_filler(before, found, after, word),
        crate::unicode::lowercase(before + padded(found) + after) == crate::unicode::lowered(
            before + padded(found) + after,
        ),
        crate::unicode::lowercase(padded(word)) == crate::unicode::lowered(padded(word)),
        crate::unicode::lowercase(before + seq![' '] + after) == crate::unicode::lowered(
            before + seq![' '] + after,
        ),
    ensures
        strip_word(before + padded(found) + after, word) == Some(before + seq![' '] + after),
        cleaned(before + padded(found) + after, seq![word]) == cleaned(
            before + seq![' '] + after,
            Seq::empty(),
        ),
{
    let text = before + padded(found) + after;
    lemma_single_filler(before, found, after, word);
    law_single_filler_is_removed(before, padded(found), after, word);
    assert(seq![word].drop_last() =~= Seq::empty());
    assert(strip_words(text, Seq::empty()) == Some(text));
    assert(strip_words(text, seq![word]) == strip_word(text, word));
}

/// The padded word is the word between two spaces, and a filler stands in a text
/// exactly where the lowercase text is something, the lowercase word with its
/// spaces, and something more.
pub proof fn law_has_filler(text: Seq<char>, word: Seq<char>)
    ensures
        padded(word) == seq![' '] + word + seq![' '],
        has_filler(text, word) <==> exists|a: Seq<char>, b: Seq<char>|
            crate::unicode::lowercase(text) == #[trigger] (a + crate::unicode::lowercase(
                seq![' '] + word + seq![' '],
            ) + b),
{
    crate::text::law_has_part(
        crate::unicode::lowercase(text),
        crate::unicode::lowercase(seq![' '] + word + seq![' ']),
    );
}

/// Words are taken out one after the other, each out of what the ones before it
/// have left: no word leaves the text as it is, one word is that word taken out,
/// and of a list in two parts the second part is taken out of what the first one
/// leaves. Where a word cannot be taken out, none behind it is.
pub proof fn law_words_one_after_another(
    text: Seq<char>,
    a: Seq<Seq<char>>,
    b: Seq<Seq<char>>,
    word: Seq<char>,
)
    ensures
        strip_words(text, Seq::empty()) == Some(text),
        strip_words(text, seq![word]) == strip_word(text, word),
        strip_words(text, a + b) == match strip_words(text, a) {
            Some(rest) => strip_words(rest, b),
            None => None,
        },
    decreases b.len(),
{
    assert(seq![word].drop_last() =~= Seq::empty());
    assert(strip_words(text, seq![word].drop_last()) == Some(text));
    if b.len() == 0 {
        assert(a + b =~= a);
    } else {
        law_words_one_after_another(text, a, b.drop_last(), word);
        assert((a + b).drop_last() =~= a + b.drop_last());
    }
}

/// Cleaning with a list in two parts is cleaning with the second part what the
/// first one leaves of the text; without words a text is only made a sentence.
pub proof fn law_cleaning_one_after_another(
    raw: Seq<char>,
    a: Seq<Seq<char>>,
    b: Seq<Seq<char>>,
)
    ensures
        cleaned(raw, Seq::empty()) == Some(as_sentence(raw)),
        cleaned(raw, a + b) == match strip_words(raw, a) {
            Some(rest) => cleaned(rest, b),
            None => None,
        },
        cleaned(raw, a) == match strip_words(raw, a) {
            Some(rest) => Some(as_sentence(rest)),
            None => None,
        },
{
    law_words_one_after_another(raw, a, b, raw);
}

proof fn lemma_cuts(
    before: Seq<char>,
    piece: Seq<char>,
    cuts: Seq<Seq<char>>,
    after: Seq<char>,
    word: Seq<char>,
)
    requires
        encode_utf8(piece).len() == encode_utf8(padded(word)).len(),
        forall|i: int|
            0 <= i < cuts.len() ==> encode_utf8(#[trigger] cuts[i]).len() + 1 == encode_utf8(
                padded(word),
            ).len(),
        forall|i: int|
            0 <= i < cuts.len() ==> has_filler(
                before + seq![' '] + (#[trigger] cuts.skip(i)).flatten() + after,
                word,
            ),
    ensures
        ({
            let at = encode_utf8(before).len() as int;
            let rest = before + seq![' '] + after;
            strip_at(before + piece + cuts.flatten() + after, word, at) == if has_filler(
                rest,
                word,
            ) {
                strip_at(rest, word, at)
            } else {
                Some(rest)
            }
        }),
    decreases cuts.len(),
{
    let flat = cuts.flatten();
    let text = before + piece + flat + after;
    assert(text =~= before + piece + (flat + after));
    crate::search::lemma_cut_middle(before, piece, flat + after);
    let next = before + seq![' '] + flat + after;
    assert(next =~= before + seq![' '] + (flat + after));
    if cuts.len() == 0 {
        assert(next =~= before + seq![' '] + after);
    } else {
        assert(cuts.skip(0) =~= cuts);
        assert(has_filler(before + seq![' '] + cuts.skip(0).flatten() + after, word));
        let again = seq![' '] + cuts[0];
        let rest = cuts.drop_first();
        crate::search::lemma_encode_space();
        crate::search::lemma_encode_concat(seq![' '], cuts[0]);
        assert(encode_utf8(cuts[0]).len() + 1 == encode_utf8(padded(word)).len());
        assert(flat =~= cuts[0] + rest.flatten());
        assert(next =~= before + again + rest.flatten() + after);
        assert forall|i: int| 0 <= i < rest.len() implies has_filler(
            before + seq![' '] + (#[trigger] rest.skip(i)).flatten() + after,
            word,
        ) by {
            assert(rest.skip(i) =~= cuts.skip(i + 1));
        }
        assert forall|i: int| 0 <= i < rest.len() implies encode_utf8(
            #[trigger] rest[i],
        ).len() + 1 == encode_utf8(padded(word)).len() by {
            assert(rest[i] == cuts[i + 1]);
        }
        lemma_cuts(before, again, rest, after, word);
    }
}

/// Where a word goes on standing in the text, the text is cut again and again at
/// the offset where it first stood. `found` is what the first cut takes, as many
/// bytes as the word with its spaces has, and `cuts` are what the others take
/// behind the space that the cut before has left. What stands before the offset
/// and what stands behind the last cut stays as it is, and the cuts end as soon as
/// the word stands nowhere.
pub proof fn law_cuts_at_one_offset(
    before: Seq<char>,
    found: Seq<char>,
    cuts: Seq<Seq<char>>,
    after: Seq<char>,
    word: Seq<char>,
)
    requires
        crate::search::first_at(
            encode_utf8(crate::unicode::lowercase(before + found + cuts.flatten() + after)),
            encode_utf8(crate::unicode::lowercase(seq![' '] + word + seq![' '])),
        ) == Some(encode_utf8(before).len() as int),
        encode_utf8(found).len() == encode_utf8(word).len() + 2,
        forall|i: int|
            0 <= i < cuts.len() ==> encode_utf8(#[trigger] cuts[i]).len() == encode_utf8(word).len()
                + 1,
        forall|i: int|
            0 <= i < cuts.len() ==> has_filler(
                before + seq![' '] + (#[trigger] cuts.skip(i)).flatten() + after,
                word,
            ),
    ensures
        ({
            let at = encode_utf8(before).len() as int;
            let rest = before + seq![' '] + after;
            let taken = strip_word(before + found + cuts.flatten() + after, word);
            &&& !has_filler(rest, word) ==> taken == Some(rest)
            &&& has_filler(rest, word) && !crate::search::can_cut(
                rest,
                at,
                at + encode_utf8(word).len() + 2,
            ) ==> taken is None
        }),
{
    lemma_padded_bytes(word);
    lemma_cuts(before, found, cuts, after, word);
}

/// A word that stands nowhere leaves the text as it is, and one that is found
/// where the text cannot be cut is refused.
pub proof fn law_first_cut(text: Seq<char>, word: Seq<char>, at: int)
    ensures
        !has_filler(text, word) ==> strip_word(text, word) == Some(text),
        crate::search::first_at(
            encode_utf8(crate::unicode::lowercase(text)),
            encode_utf8(crate::unicode::lowercase(seq![' '] + word + seq![' '])),
        ) == Some(at) && !crate::search::can_cut(text, at, at + encode_utf8(word).len() + 2)
            ==> strip_word(text, word) is None,
{
    lemma_padded_bytes(word);
    crate::search::law_occurs_by_characters(
        crate::unicode::lowercase(text),
        crate::unicode::lowercase(padded(word)),
    );
}

/// What `str::to_lowercase` gives for plain texts.
pub open spec fn lowers_plain_texts() -> bool {
    forall|t: Seq<char>|
        crate::unicode::is_plain_text(t) ==> #[trigger] crate::unicode::lowercase(t)
            == crate::unicode::lowered(t)
}

proof fn lemma_strip_clear(text: Seq<char>, word: Seq<char>)
    requires
        lowers_plain_texts(),
        crate::unicode::is_plain_text(text),
        is_plain_word(word),
        at_most_once(crate::text::pieces(text, ' '), word),
    ensures
        strip_word(text, word) == Some(
            crate::text::join(kept(crate::text::pieces(text, ' '), seq![word]), ' '),
        ),
{
    let parts = crate::text::pieces(text, ' ');
    lemma_plain_padded(word);
    lemma_lowered_padded(word);
    if exists|k: int|
        0 < k < parts.len() - 1 && crate::unicode::lowered(#[trigger] parts[k])
            == crate::unicode::lowered(word) {
        let k = choose|k: int|
            0 < k < parts.len() - 1 && crate::unicode::lowered(#[trigger] parts[k])
                == crate::unicode::lowered(word);
        lemma_one_piece_is_single(text, word, k);
        let before = crate::text::join(parts.take(k), ' ');
        let after = crate::text::join(parts.skip(k + 1), ' ');
        lemma_single_filler(before, parts[k], after, word);
        law_filler_of_any_letter_case(before, parts[k], after, word);
    } else {
        lemma_no_piece(text, word);
        law_first_cut(text, word, 0);
    }
}

/// A plain text is taken apart at its spaces; the inner pieces that are a listed
/// word, in any letter case, are left out, and the others are put together again
/// with the first and the last piece. So for a list of any length, in any order,
/// of plain words without whitespace each of which stands at most once.
pub proof fn law_listed_words_are_left_out(text: Seq<char>, words: Seq<Seq<char>>)
    requires
        lowers_plain_texts(),
        is_clear(text, words),
    ensures
        strip_words(text, words) == Some(
            crate::text::join(kept(crate::text::pieces(text, ' '), words), ' '),
        ),
    decreases words.len(),
{
    let parts = crate::text::pieces(text, ' ');
    lemma_pieces_of(text);
    if words.len() == 0 {
        lemma_kept_all(parts);
        assert(words =~= Seq::empty());
    } else {
        let init = words.drop_last();
        let word = words.last();
        assert(words =~= init.push(word));
        assert forall|i: int| 0 <= i < init.len() implies is_plain_word(#[trigger] init[i])
            && at_most_once(parts, init[i]) by {
            assert(init[i] == words[i]);
        }
        law_listed_words_are_left_out(text, init);
        assert(words[words.len() - 1] == word);
        let rest = crate::text::join(kept(parts, init), ' ');
        lemma_kept_pieces(text, init);
        lemma_kept_once(parts, init, word);
        lemma_strip_clear(rest, word);
        lemma_kept_twice(parts, init, word);
    }
}

/// A listed word that stands in a plain text once, in any letter case, is taken
/// out with one space, wherever it is in a list of whatever length, if no listed
/// word stands in what is left.
pub proof fn law_listed_word_is_taken_out(
    before: Seq<char>,
    found: Seq<char>,
    after: Seq<char>,
    words: Seq<Seq<char>>,
    i: int,
)
    requires
        lowers_plain_texts(),
        crate::unicode::is_plain_text(before),
        crate::unicode::is_plain_text(found),
        crate::unicode::is_plain_text(after),
        0 <= i < words.len(),
        crate::unicode::lowered(found) == crate::unicode::lowered(words[i]),
        forall|n: int|
            0 <= n < words.len() ==> crate::unicode::is_plain_text(#[trigger] words[n]) && forall|
                k: int,
            |
                0 <= k < words[n].len() ==> !crate::text::is_white(#[trigger] words[n][k]),
        forall|n: int|
            0 <= n < words.len() ==> !crate::text::has_part(
                crate::unicode::lowered(before + seq![' '] + after),
                seq![' '] + crate::unicode::lowered(#[trigger] words[n]) + seq![' '],
            ),
    ensures
        ({
            let text = before + seq![' '] + found + seq![' '] + after;
            let rest = before + seq![' '] + after;
            &&& strip_words(text, words) == Some(rest)
            &&& cleaned(text, words) == cleaned(rest, Seq::empty())
        }),
{
    let text = before + seq![' '] + found + seq![' '] + after;
    let rest = before + seq![' '] + after;
    let pb = crate::text::pieces(before, ' ');
    let pa = crate::text::pieces(after, ' ');
    lemma_pieces_of(before);
    lemma_pieces_of(after);
    lemma_found_is_piece(found, words[i]);
    crate::text::law_pieces_apart(found, after, ' ');
    crate::text::law_pieces_apart(before, found + seq![' '] + after, ' ');
    crate::text::law_pieces_apart(before, after, ' ');
    assert(text =~= before + seq![' '] + (found + seq![' '] + after));
    let parts = crate::text::pieces(text, ' ');
    let left = crate::text::pieces(rest, ' ');
    let x = pb.len() as int;
    assert(parts =~= pb + seq![found] + pa);
    assert(left =~= pb + pa);
    lemma_pieces_of(rest);
    assert forall|k: int| 0 < k < left.len() - 1 implies !is_listed(#[trigger] left[k], words) by {
        if is_listed(left[k], words) {
            let n = choose|n: int|
                0 <= n < words.len() && crate::unicode::lowered(left[k]) == crate::unicode::lowered(
                    #[trigger] words[n],
                );
            lemma_inner_piece_stands(left, k);
            assert(!crate::text::has_part(
                crate::unicode::lowered(rest),
                seq![' '] + crate::unicode::lowered(words[n]) + seq![' '],
            ));
        }
    }
    assert forall|k: int| 0 < k < parts.len() - 1 && k != x implies !is_listed(
        #[trigger] parts[k],
        words,
    ) by {
        let m = if k < x {
            k
        } else {
            k - 1
        };
        assert(parts[k] == left[m]);
    }
    assert(crate::unicode::is_plain(' '));
    assert(crate::unicode::is_plain_text(text));
    assert forall|n: int| 0 <= n < words.len() implies is_plain_word(#[trigger] words[n])
        && at_most_once(parts, words[n]) by {
        assert forall|p: int, q: int| 0 < p < q < parts.len() - 1 implies !(
        crate::unicode::lowered(#[trigger] parts[p]) == crate::unicode::lowered(words[n])
            && crate::unicode::lowered(#[trigger] parts[q]) == crate::unicode::lowered(
            words[n],
        )) by {
            if crate::unicode::lowered(parts[p]) == crate::unicode::lowered(words[n])
                && crate::unicode::lowered(parts[q]) == crate::unicode::lowered(words[n]) {
                assert(is_listed(parts[p], words));
                assert(is_listed(parts[q], words));
            }
        }
    }
    law_listed_words_are_left_out(text, words);
    let a = pb.skip(1);
    let c = pa.drop_last();
    assert(inner(parts) =~= a + (seq![found] + c));
    lemma_unlisted_apart(a, seq![found] + c, words);
    lemma_unlisted_apart(seq![found], c, words);
    assert forall|k: int| 0 <= k < a.len() implies !is_listed(#[trigger] a[k], words) by {
        assert(a[k] == parts[k + 1]);
    }
    assert forall|k: int| 0 <= k < c.len() implies !is_listed(#[trigger] c[k], words) by {
        assert(c[k] == parts[x + 1 + k]);
    }
    lemma_unlisted_all(a, words);
    lemma_unlisted_all(c, words);
    assert(is_listed(found, words));
    lemma_unlisted_none(words);
    assert(Seq::<Seq<char>>::empty().push(found) =~= seq![found]);
    lemma_unlisted_push(Seq::empty(), found, words);
    assert(kept(parts, words) =~= left);
}

/// Two different listed words that stand in a plain text once each, in any letter
/// case, are both taken out, each with one space, wherever they are in a list of
/// whatever length, if no listed word stands in what is left.
pub proof fn law_two_listed_words_are_taken_out(
    before: Seq<char>,
    first: Seq<char>,
    middle: Seq<char>,
    second: Seq<char>,
    after: Seq<char>,
    words: Seq<Seq<char>>,
    i: int,
    j: int,
)
    requires
        lowers_plain_texts(),
        crate::unicode::is_plain_text(before),
        crate::unicode::is_plain_text(first),
        crate::unicode::is_plain_text(middle),
        crate::unicode::is_plain_text(second),
        crate::unicode::is_plain_text(after),
        0 <= i < words.len(),
        0 <= j < words.len(),
        crate::unicode::lowered(first) == crate::unicode::lowered(words[i]),
        crate::unicode::lowered(second) == crate::unicode::lowered(words[j]),
        crate::unicode::lowered(first) != crate::unicode::lowered(second),
        forall|n: int|
            0 <= n < words.len() ==> crate::unicode::is_plain_text(#[trigger] words[n]) && forall|
                k: int,
            |
                0 <= k < words[n].len() ==> !crate::text::is_white(#[trigger] words[n][k]),
        forall|n: int|
            0 <= n < words.len() ==> !crate::text::has_part(
                crate::unicode::lowered(before + seq![' '] + middle + seq![' '] + after),
                seq![' '] + crate::unicode::lowered(#[trigger] words[n]) + seq![' '],
            ),
    ensures
        ({
            let text = before + seq![' '] + first + seq![' '] + middle + seq![' '] + second + seq![
                ' ',
            ] + after;
            let rest = before + seq![' '] + middle + seq![' '] + after;
            &&& strip_words(text, words) == Some(rest)
            &&& cleaned(text, words) == cleaned(rest, Seq::empty())
        }),
{
    let text = before + seq![' '] + first + seq![' '] + middle + seq![' '] + second + seq![' ']
        + after;
    let rest = before + seq![' '] + middle + seq![' '] + after;
    let pb = crate::text::pieces(before, ' ');
    let pm = crate::text::pieces(middle, ' ');
    let pa = crate::text::pieces(after, ' ');
    lemma_pieces_of(before);
    lemma_pieces_of(middle);
    lemma_pieces_of(after);
    lemma_found_is_piece(first, words[i]);
    lemma_found_is_piece(second, words[j]);
    let tail2 = second + seq![' '] + after;
    let tail1 = middle + seq![' '] + tail2;
    let tail0 = first + seq![' '] + tail1;
    crate::text::law_pieces_apart(second, after, ' ');
    crate::text::law_pieces_apart(middle, tail2, ' ');
    crate::text::law_pieces_apart(first, tail1, ' ');
    crate::text::law_pieces_apart(before, tail0, ' ');
    assert(text =~= before + seq![' '] + tail0);
    let parts = crate::text::pieces(text, ' ');
    assert(parts =~= pb + seq![first] + pm + seq![second] + pa);
    crate::text::law_pieces_apart(middle, after, ' ');
    crate::text::law_pieces_apart(before, middle + seq![' '] + after, ' ');
    assert(rest =~= before + seq![' '] + (middle + seq![' '] + after));
    let left = crate::text::pieces(rest, ' ');
    assert(left =~= pb + pm + pa);
    lemma_pieces_of(rest);
    assert(is_listed(first, words));
    assert(is_listed(second, words));
    assert forall|k: int| 0 < k < left.len() - 1 implies !is_listed(#[trigger] left[k], words) by {
        if is_listed(left[k], words) {
            let n = choose|n: int|
                0 <= n < words.len() && crate::unicode::lowered(left[k]) == crate::unicode::lowered(
                    #[trigger] words[n],
                );
            lemma_inner_piece_stands(left, k);
            assert(!crate::text::has_part(
                crate::unicode::lowered(rest),
                seq![' '] + crate::unicode::lowered(words[n]) + seq![' '],
            ));
        }
    }
    lemma_two_left_out(pb, first, pm, second, pa, words);
    assert(crate::unicode::is_plain(' '));
    assert(crate::unicode::is_plain_text(text));
    assert forall|n: int| 0 <= n < words.len() implies is_plain_word(#[trigger] words[n])
        && at_most_once(parts, words[n]) by {
        lemma_two_once(pb, first, pm, second, pa, words, n);
    }
    law_listed_words_are_left_out(text, words);
}

/// Two listed pieces are left out where no other inner piece is listed.
proof fn lemma_two_left_out(
    pb: Seq<Seq<char>>,
    first: Seq<char>,
    pm: Seq<Seq<char>>,
    second: Seq<char>,
    pa: Seq<Seq<char>>,
    words: Seq<Seq<char>>,
)
    requires
        pb.len() > 0,
        pa.len() > 0,
        is_listed(first, words),
        is_listed(second, words),
        forall|k: int|
            0 < k < (pb + pm + pa).len() - 1 ==> !is_listed(#[trigger] (pb + pm + pa)[k], words),
    ensures
        kept(pb + seq![first] + pm + seq![second] + pa, words) == pb + pm + pa,
{
    let parts = pb + seq![first] + pm + seq![second] + pa;
    let left = pb + pm + pa;
    let a = pb.skip(1);
    let c = pa.drop_last();
    assert(inner(parts) =~= a + (seq![first] + (pm + (seq![second] + c))));
    lemma_unlisted_apart(a, seq![first] + (pm + (seq![second] + c)), words);
    lemma_unlisted_apart(seq![first], pm + (seq![second] + c), words);
    lemma_unlisted_apart(pm, seq![second] + c, words);
    lemma_unlisted_apart(seq![second], c, words);
    assert forall|k: int| 0 <= k < a.len() implies !is_listed(#[trigger] a[k], words) by {
        assert(a[k] == left[k + 1]);
    }
    assert forall|k: int| 0 <= k < pm.len() implies !is_listed(#[trigger] pm[k], words) by {
        assert(pm[k] == left[pb.len() + k]);
    }
    assert forall|k: int| 0 <= k < c.len() implies !is_listed(#[trigger] c[k], words) by {
        assert(c[k] == left[pb.len() + pm.len() + k]);
    }
    lemma_unlisted_all(a, words);
    lemma_unlisted_all(pm, words);
    lemma_unlisted_all(c, words);
    lemma_unlisted_none(words);
    assert(Seq::<Seq<char>>::empty().push(first) =~= seq![first]);
    assert(Seq::<Seq<char>>::empty().push(second) =~= seq![second]);
    lemma_unlisted_push(Seq::empty(), first, words);
    lemma_unlisted_push(Seq::empty(), second, words);
    assert(kept(parts, words) =~= left);
}

/// Two different listed pieces where no other inner piece is listed: no listed
/// word stands twice.
proof fn lemma_two_once(
    pb: Seq<Seq<char>>,
    first: Seq<char>,
    pm: Seq<Seq<char>>,
    second: Seq<char>,
    pa: Seq<Seq<char>>,
    words: Seq<Seq<char>>,
    n: int,
)
    requires
        pb.len() > 0,
        pa.len() > 0,
        0 <= n < words.len(),
        crate::unicode::lowered(first) != crate::unicode::lowered(second),
        forall|k: int|
            0 < k < (pb + pm + pa).len() - 1 ==> !is_listed(#[trigger] (pb + pm + pa)[k], words),
    ensures
        at_most_once(pb + seq![first] + pm + seq![second] + pa, words[n]),
{
    let parts = pb + seq![first] + pm + seq![second] + pa;
    let left = pb + pm + pa;
    let x = pb.len() as int;
    let y = x + 1 + pm.len();
    assert forall|k: int| 0 < k < parts.len() - 1 && k != x && k != y implies !is_listed(
        #[trigger] parts[k],
        words,
    ) by {
        let m = if k < x {
            k
        } else if k < y {
            k - 1
        } else {
            k - 2
        };
        assert(parts[k] == left[m]);
    }
    assert(parts[x] == first && parts[y] == second);
    assert forall|p: int, q: int| 0 < p < q < parts.len() - 1 implies !(crate::unicode::lowered(
        #[trigger] parts[p],
    ) == crate::unicode::lowered(words[n]) && crate::unicode::lowered(#[trigger] parts[q])
        == crate::unicode::lowered(words[n])) by {
        if crate::unicode::lowered(parts[p]) == crate::unicode::lowered(words[n])
            && crate::unicode::lowered(parts[q]) == crate::unicode::lowered(words[n]) {
            assert(is_listed(parts[p], words));
            assert(is_listed(parts[q], words));
        }
    }
}

/// What is a plain word without whitespace, letter case aside, is one piece.
proof fn lemma_found_is_piece(found: Seq<char>, word: Seq<char>)
    requires
        crate::unicode::lowered(found) == crate::unicode::lowered(word),
        forall|k: int| 0 <= k < word.len() ==> !crate::text::is_white(#[trigger] word[k]),
    ensures
        crate::text::pieces(found, ' ') == seq![found],
{
    assert forall|k: int| 0 <= k < found.len() implies #[trigger] found[k] != ' ' by {
        assert(crate::unicode::lowered(found)[k] == crate::unicode::lower_of(found[k]));
        assert(crate::unicode::lowered(word).len() == word.len());
        assert(crate::unicode::lowered(word)[k] == crate::unicode::lower_of(word[k]));
        assert(!crate::text::is_white(word[k]));
    }
    crate::text::law_pieces_apart(found, found, ' ');
}

/// An inner piece stands in the text between spaces.
proof fn lemma_inner_piece_stands(parts: Seq<Seq<char>>, k: int)
    requires
        0 < k < parts.len() - 1,
    ensures
        crate::text::has_part(
            crate::unicode::lowered(crate::text::join(parts, ' ')),
            seq![' '] + crate::unicode::lowered(parts[k]) + seq![' '],
        ),
{
    let head = parts.take(k);
    let tail = parts.skip(k + 1);
    assert(parts =~= head + (seq![parts[k]] + tail));
    crate::text::law_join(seq![parts[k]], tail, parts[k], ' ');
    crate::text::law_join(head, seq![parts[k]] + tail, parts[k], ' ');
    let a = crate::unicode::lowered(crate::text::join(head, ' '));
    let b = crate::unicode::lowered(crate::text::join(tail, ' '));
    let needle = seq![' '] + crate::unicode::lowered(parts[k]) + seq![' '];
    let low = crate::unicode::lowered(crate::text::join(parts, ' '));
    assert(low =~= a + needle + b);
    crate::text::law_has_part(low, needle);
}

/// A text in which no filler word stands is only made a sentence.
pub proof fn law_text_without_fillers(raw: Seq<char>, words: Seq<Seq<char>>)
    requires
        forall|i: int| 0 <= i < words.len() ==> !has_filler(raw, #[trigger] words[i]),
    ensures
        cleaned(raw, words) == Some(as_sentence(raw)),
{
    lemma_nothing_stripped(raw, words);
}

proof fn lemma_nothing_stripped(raw: Seq<char>, words: Seq<Seq<char>>)
    requires
        forall|i: int| 0 <= i < words.len() ==> !has_filler(raw, #[trigger] words[i]),
    ensures
        strip_words(raw, words) == Some(raw),
    decreases words.len(),
{
    if words.len() > 0 {
        let init = words.drop_last();
        assert forall|i: int| 0 <= i < init.len() implies !has_filler(raw, #[trigger] init[i]) by {
            assert(init[i] == words[i]);
        }
        lemma_nothing_stripped(raw, init);
        assert(!has_filler(raw, words[words.len() - 1]));
        crate::search::law_occurs_by_characters(
            crate::unicode::lowercase(raw),
            crate::unicode::lowercase(padded(words.last())),
        );
    }
}

proof fn lemma_stripped_at(text: Seq<char>, word: Seq<char>, at: int)
    ensures
        strip_at(text, word, at) matches Some(rest) ==> !has_filler(rest, word) && encode_utf8(
            rest,
        ).len() < encode_utf8(text).len(),
    decreases encode_utf8(text).len(),
{
    let end = at + encode_utf8(padded(word)).len();
    if crate::search::can_cut(text, at, end) {
        crate::search::lemma_cut_bytes(text, at, end);
        lemma_padded_bytes(word);
        let rest = crate::search::cut(text, at, end);
        if has_filler(rest, word) {
            lemma_stripped_at(rest, word, at);
        }
    }
}

/// A filler word that was taken out stands in the text no more, and the text
/// has not become longer.
pub proof fn law_removed_word_is_gone(text: Seq<char>, word: Seq<char>)
    ensures
        strip_word(text, word) matches Some(rest) ==> !has_filler(rest, word) && encode_utf8(
            rest,
        ).len() <= encode_utf8(text).len(),
{
    let lower = crate::unicode::lowercase(text);
    let needle = crate::unicode::lowercase(padded(word));
    crate::search::law_occurs_by_characters(lower, needle);
    if let Some(at) = crate::search::first_at(encode_utf8(lower), encode_utf8(needle)) {
        lemma_stripped_at(text, word, at);
    }
}

/// The last of the filler words that were taken out stands in the text no more.
pub proof fn law_last_word_is_gone(text: Seq<char>, words: Seq<Seq<char>>)
    requires
        words.len() > 0,
    ensures
        strip_words(text, words) matches Some(rest) ==> !has_filler(rest, words.last()),
{
    if let Some(rest) = strip_words(text, words.drop_last()) {
        law_removed_word_is_gone(rest, words.last());
    }
}

/// Taking out any filler words does not make the text longer.
pub proof fn law_removal_does_not_lengthen(text: Seq<char>, words: Seq<Seq<char>>)
    ensures
        strip_words(text, words) matches Some(rest) ==> encode_utf8(rest).len() <= encode_utf8(
            text,
        ).len(),
    decreases words.len(),
{
    if words.len() > 0 {
        law_removal_does_not_lengthen(text, words.drop_last());
        if let Some(rest) = strip_words(text, words.drop_last()) {
            law_removed_word_is_gone(rest, words.last());
        }
    }
}

/// A text whose words are one space apart: no whitespace at its ends, none but
/// spaces inside, and never two together.
pub open spec fn is_spaced(s: Seq<char>) -> bool {
    &&& crate::text::is_trimmed(s)
    &&& forall|i: int|
        0 <= i < s.len() && crate::text::is_white(#[trigger] s[i]) ==> s[i] == ' ' && 0 < i
            && i + 1 < s.len() && !crate::text::is_white(s[i + 1])
}

proof fn lemma_join_is_spaced(parts: Seq<Seq<char>>)
    requires
        forall|i: int| 0 <= i < parts.len() ==> crate::text::is_token(#[trigger] parts[i]),
    ensures
        is_spaced(crate::text::join(parts, ' ')),
        parts.len() > 0 ==> crate::text::join(parts, ' ').len() > 0,
    decreases parts.len(),
{
    if parts.len() == 1 {
        assert(crate::text::is_token(parts[0]));
    } else if parts.len() > 1 {
        let init = parts.drop_last();
        let last = parts.last();
        lemma_join_is_spaced(init);
        assert(crate::text::is_token(parts[parts.len() - 1]));
        let head = crate::text::join(init, ' ');
        let whole = head.push(' ') + last;
        assert forall|i: int| 0 <= i < whole.len() && crate::text::is_white(#[trigger] whole[i])
            implies whole[i] == ' ' && 0 < i && i + 1 < whole.len() && !crate::text::is_white(
            whole[i + 1],
        ) by {
            if i < head.len() {
                assert(whole[i] == head[i]);
                assert(whole[i + 1] == head[i + 1]);
            } else if i == head.len() {
                assert(whole[i + 1] == last[0]);
            } else {
                assert(whole[i] == last[i - head.len() - 1]);
            }
        }
        assert(whole[0] == head[0]);
        assert(whole.last() == last[last.len() - 1]);
    }
}

/// Collapsing keeps the words and puts them one space apart, so that trimming
/// or collapsing again changes nothing.
pub proof fn law_collapsed(text: Seq<char>)
    ensures
        is_spaced(collapsed(text)),
        crate::text::tokens(collapsed(text)) == crate::text::tokens(text),
        crate::text::trim(collapsed(text)) == collapsed(text),
        collapsed(collapsed(text)) == collapsed(text),
{
    crate::text::law_tokens(text);
    lemma_join_is_spaced(crate::text::tokens(text));
    crate::text::law_tokens_of_join(crate::text::tokens(text));
    crate::text::law_trim_of_trimmed(collapsed(text));
}

/// A text with no whitespace at its beginning, none but spaces, and never two
/// together, is kept by collapsing up to a space at its end.
proof fn lemma_collapse_spaced(s: Seq<char>)
    requires
        s.len() > 0,
        !crate::text::is_white(s[0]),
        forall|i: int|
            0 <= i < s.len() && crate::text::is_white(#[trigger] s[i]) ==> s[i] == ' ' && (i + 1
                < s.len() ==> !crate::text::is_white(s[i + 1])),
    ensures
        collapsed(s) == if crate::text::is_white(s.last()) {
            s.drop_last()
        } else {
            s
        },
    decreases s.len(),
{
    let init = s.drop_last();
    let c = s.last();
    assert(init.push(c) =~= s);
    assert(s[s.len() - 1] == c);
    if s.len() == 1 {
        assert(crate::text::tokens(s) =~= seq![seq![c]]);
        assert(crate::text::join(seq![seq![c]], ' ') =~= s);
    } else {
        assert forall|i: int| 0 <= i < init.len() && crate::text::is_white(#[trigger] init[i])
            implies init[i] == ' ' && (i + 1 < init.len() ==> !crate::text::is_white(
            init[i + 1],
        )) by {
            assert(s[i] == init[i]);
            if i + 1 < init.len() {
                assert(s[i + 1] == init[i + 1]);
            }
        }
        lemma_collapse_spaced(init);
        assert(init.last() == s[s.len() - 2]);
        let before = crate::text::tokens(init);
        crate::text::law_tokens(init);
        crate::text::lemma_join_len(before, ' ');
        if !crate::text::is_white(c) {
            if crate::text::is_white(s[s.len() - 2]) {
                assert(init.drop_last().len() > 0);
                crate::text::lemma_join_push(before, seq![c], ' ');
                assert(init.drop_last().push(' ') =~= init);
                assert(init + seq![c] =~= s);
            } else {
                crate::text::lemma_join_extend(before, c, ' ');
            }
        }
    }
}

/// A text whose words are one space apart stays as it is when it is collapsed.
pub proof fn law_spaced_text_stays(s: Seq<char>)
    requires
        is_spaced(s),
    ensures
        collapsed(s) == s,
{
    if s.len() > 0 {
        lemma_collapse_spaced(s);
    } else {
        assert(collapsed(s) =~= s);
    }
}

/// Collapsing goes word by word: a text without whitespace stays as it is, and of
/// two texts with any whitespace between them the two collapsed texts are left,
/// one space apart where neither of them is empty.
pub proof fn law_collapsed_apart(a: Seq<char>, c: char, b: Seq<char>)
    requires
        crate::text::is_white(c),
    ensures
        collapsed(a + seq![c] + b) == if collapsed(a).len() == 0 {
            collapsed(b)
        } else if collapsed(b).len() == 0 {
            collapsed(a)
        } else {
            collapsed(a) + seq![' '] + collapsed(b)
        },
        (forall|i: int| 0 <= i < a.len() ==> !crate::text::is_white(#[trigger] a[i])) ==> collapsed(
            a,
        ) == a,
{
    let ta = crate::text::tokens(a);
    let tb = crate::text::tokens(b);
    crate::text::law_tokens_apart(a, c, b);
    crate::text::law_tokens(a);
    crate::text::law_tokens(b);
    crate::text::lemma_join_len(ta, ' ');
    crate::text::lemma_join_len(tb, ' ');
    crate::text::law_join(ta, tb, a, ' ');
    if ta.len() == 0 {
        assert(ta + tb =~= tb);
    } else if tb.len() == 0 {
        assert(ta + tb =~= ta);
    }
    if forall|i: int| 0 <= i < a.len() ==> !crate::text::is_white(#[trigger] a[i]) {
        crate::text::law_one_token(a);
        assert(collapsed(a) =~= a);
    }
}

/// The texts whose words are one space apart are those that collapsing leaves as
/// they are.
pub proof fn law_spaced_is_collapsed(s: Seq<char>)
    ensures
        is_spaced(s) <==> collapsed(s) == s,
{
    law_collapsed(s);
    if is_spaced(s) {
        law_spaced_text_stays(s);
    }
}

/// A sentence is the collapsed text with the uppercase of its first character in
/// place of it, and nothing else changed but for a full stop where no mark ends
/// it. Texts with the same words make the same sentence.
pub proof fn law_sentence(text: Seq<char>, other: Seq<char>)
    ensures
        collapsed(text).len() == 0 ==> as_sentence(text).len() == 0,
        collapsed(text).len() > 0 ==> {
            let words = collapsed(text);
            let capital = crate::unicode::uppercase(words[0]) + words.subrange(
                1,
                words.len() as int,
            );
            let mark = capital[capital.len() - 1];
            capital.len() > 0 ==> as_sentence(text) == if mark == '.' || mark == '!' || mark
                == '?' {
                capital
            } else {
                capital + seq!['.']
            }
        },
        crate::text::tokens(text) == crate::text::tokens(other) ==> as_sentence(text)
            == as_sentence(other),
{
    let words = collapsed(text);
    if words.len() > 0 {
        assert(words.skip(1) =~= words.subrange(1, words.len() as int));
        let capital = crate::unicode::uppercase(words[0]) + words.skip(1);
        assert(capital.push('.') =~= capital + seq!['.']);
    }
}

/// A cleaned text is empty or ends a sentence.
pub proof fn law_cleaned_text_ends_sentence(raw: Seq<char>, words: Seq<Seq<char>>)
    ensures
        cleaned(raw, words) matches Some(s) ==> s.len() == 0 || ends_sentence(s.last()),
        forall|c: char| ends_sentence(c) <==> c == '.' || c == '!' || c == '?',
{
}

/// Of nothing but whitespace no sentence is made.
pub proof fn law_blank_text_is_no_sentence(text: Seq<char>)
    requires
        forall|i: int| 0 <= i < text.len() ==> crate::text::is_white(#[trigger] text[i]),
    ensures
        crate::text::tokens(text).len() == 0,
        as_sentence(text) == Seq::<char>::empty(),
    decreases text.len(),
{
    if text.len() > 0 {
        let init = text.drop_last();
        assert forall|i: int| 0 <= i < init.len() implies crate::text::is_white(
            #[trigger] init[i],
        ) by {
            assert(init[i] == text[i]);
        }
        law_blank_text_is_no_sentence(init);
        assert(crate::text::is_white(text[text.len() - 1]));
    }
    assert(crate::text::tokens(text) =~= Seq::empty());
    assert(as_sentence(text) =~= Seq::empty());
}

/// Nothing becomes of nothing: the empty text is cleaned to itself.
pub proof fn law_empty_text_stays()
    ensures
        is_spaced(Seq::empty()),
        as_sentence(Seq::empty()) == Seq::<char>::empty(),
        cleaned(Seq::empty(), Seq::empty()) == Some(Seq::<char>::empty()),
{
    law_spaced_text_stays(Seq::empty());
}

/// A text that is a sentence already and holds no filler word stays as it is.
pub proof fn law_clean_sentence_stays(raw: Seq<char>, words: Seq<Seq<char>>)
    requires
        raw.len() > 0,
        is_spaced(raw),
        crate::unicode::uppercase(raw[0]) == seq![raw[0]],
        ends_sentence(raw.last()),
        forall|i: int| 0 <= i < words.len() ==> !has_filler(raw, #[trigger] words[i]),
    ensures
        cleaned(raw, words) == Some(raw),
{
    law_text_without_fillers(raw, words);
    law_spaced_text_stays(raw);
    assert(seq![raw[0]] + raw.skip(1) =~= raw);
}

/// A sentence has its words one space apart and stays as it is when it is made
/// a sentence again. The premise, that the uppercase of the first character is
/// settled, is what `char::to_uppercase` gives for a character that is no
/// whitespace.
pub proof fn law_sentence_stays(text: Seq<char>)
    requires
        collapsed(text).len() > 0 ==> crate::unicode::is_settled(
            crate::unicode::uppercase(collapsed(text)[0]),
        ),
    ensures
        is_spaced(as_sentence(text)),
        as_sentence(as_sentence(text)) == as_sentence(text),
        cleaned(as_sentence(text), Seq::empty()) == Some(as_sentence(text)),
{
    let words = collapsed(text);
    let s = as_sentence(text);
    law_collapsed(text);
    if words.len() == 0 {
        law_spaced_text_stays(s);
    } else {
        let first = crate::unicode::uppercase(words[0]);
        let capital = first + words.skip(1);
        let shift = first.len() - 1;
        assert forall|i: int| 0 <= i < s.len() && crate::text::is_white(#[trigger] s[i]) implies
            s[i] == ' ' && 0 < i && i + 1 < s.len() && !crate::text::is_white(s[i + 1]) by {
            assert(i < capital.len());
            assert(s[i] == capital[i]);
            if i < first.len() {
                assert(!crate::text::is_white(first[i]));
            } else {
                assert(s[i] == words[i - shift]);
                assert(s[i + 1] == words[i - shift + 1]);
            }
        }
        assert(s[0] == first[0]);
        assert(!crate::text::is_white(first[0]));
        assert(!crate::text::is_white(s[s.len() - 1]));
        law_clean_sentence_stays(s, Seq::empty());
    }
}

/// What is cleaned has its words one space apart and stays as it is when it is
/// cleaned again without filler words. The premise, that the uppercase of its
/// first character is settled, is what `char::to_uppercase` gives for a character
/// that is no whitespace.
pub proof fn law_cleaned_text_stays(raw: Seq<char>, words: Seq<Seq<char>>)
    requires
        strip_words(raw, words) matches Some(rest) && collapsed(rest).len() > 0
            ==> crate::unicode::is_settled(
            crate::unicode::uppercase(collapsed(strip_words(raw, words)->0)[0]),
        ),
    ensures
        cleaned(raw, words) matches Some(s) ==> is_spaced(s) && cleaned(s, Seq::empty()) == Some(
            s,
        ),
{
    if let Some(rest) = strip_words(raw, words) {
        law_sentence_stays(rest);
    }
}

} // verus!
