//! The list of filler words, as the user writes it.

use crate::text::{chars_of, is_whitespace, string_of};
use vstd::prelude::*;

verus! {

/// The words of the pieces of a list: each piece without the whitespace around
/// it, the empty ones left out.
pub open spec fn words_of(pieces: Seq<Seq<char>>) -> Seq<Seq<char>> {
    pieces.map_values(|p: Seq<char>| crate::text::trim(p)).filter(|p: Seq<char>| p.len() > 0)
}

/// The words of a comma-separated list.
pub open spec fn listed(raw: Seq<char>) -> Seq<Seq<char>> {
    words_of(crate::text::pieces(raw, ','))
}

/// One piece more adds its word, where it has one.
proof fn lemma_words_push(pieces: Seq<Seq<char>>, piece: Seq<char>)
    ensures
        words_of(pieces.push(piece)) == if crate::text::trim(piece).len() > 0 {
            words_of(pieces).push(crate::text::trim(piece))
        } else {
            words_of(pieces)
        },
{
    let f = |p: Seq<char>| crate::text::trim(p);
    assert(pieces.push(piece).map_values(f) =~= pieces.map_values(f).push(f(piece)));
    let mapped = pieces.map_values(f);
    assert(mapped.push(f(piece)).drop_last() =~= mapped);
    reveal(Seq::filter);
}

/// The piece of `chars` from `from` up to `to` without the whitespace around it.
fn trimmed(chars: &[char], from: usize, to: usize) -> (r: String)
    requires
        from <= to <= chars@.len(),
    ensures
        r@ == crate::text::trim(chars@.subrange(from as int, to as int)),
{
    let mut a: usize = from;
    while a < to && is_whitespace(chars[a])
        invariant
            from <= a <= to <= chars@.len(),
            crate::text::trim_start(chars@.subrange(from as int, to as int))
                == crate::text::trim_start(chars@.subrange(a as int, to as int)),
        decreases to - a,
    {
        assert(chars@.subrange(a as int, to as int).drop_first() =~= chars@.subrange(
            a + 1,
            to as int,
        ));
        a = a + 1;
    }
    let mut b: usize = to;
    while a < b && is_whitespace(chars[b - 1])
        invariant
            a <= b <= to <= chars@.len(),
            crate::text::trim_end(chars@.subrange(a as int, to as int)) == crate::text::trim_end(
                chars@.subrange(a as int, b as int),
            ),
        decreases b - a,
    {
        assert(chars@.subrange(a as int, b as int).drop_last() =~= chars@.subrange(
            a as int,
            b - 1,
        ));
        b = b - 1;
    }
    string_of(chars, a, b)
}

/// The filler words of a comma-separated list.
pub fn parse_filler_words(raw: &str) -> (r: Vec<String>)
    ensures
        crate::text::views(r@) == listed(raw@),
{
    let chars: Vec<char> = chars_of(raw);
    let mut r: Vec<String> = Vec::new();
    let mut start: usize = 0;
    let mut i: usize = 0;
    assert(chars@.take(0) =~= Seq::<char>::empty());
    assert(crate::text::views(r@) =~= words_of(
        crate::text::pieces(chars@.take(0), ',').drop_last(),
    )) by {
        reveal(Seq::filter);
    }
    while i < chars.len()
        invariant
            start <= i <= chars@.len(),
            crate::text::pieces(chars@.take(i as int), ',').len() > 0,
            crate::text::pieces(chars@.take(i as int), ',').last() == chars@.subrange(
                start as int,
                i as int,
            ),
            crate::text::views(r@) == words_of(
                crate::text::pieces(chars@.take(i as int), ',').drop_last(),
            ),
        decreases chars@.len() - i,
    {
        let ghost before = crate::text::pieces(chars@.take(i as int), ',');
        assert(chars@.take(i + 1).drop_last() =~= chars@.take(i as int));
        if chars[i] == ',' {
            let word: String = trimmed(chars.as_slice(), start, i);
            proof {
                assert(before.drop_last().push(before.last()) =~= before);
                lemma_words_push(before.drop_last(), before.last());
                assert(before.push(Seq::empty()).drop_last() =~= before);
            }
            if !word.as_str().is_empty() {
                let ghost old_views = crate::text::views(r@);
                r.push(word);
                assert(crate::text::views(r@) =~= old_views.push(word@));
            }
            start = i + 1;
            assert(chars@.subrange(start as int, i + 1) =~= Seq::<char>::empty());
        } else {
            proof {
                assert(chars@.subrange(start as int, i + 1) =~= before.last().push(
                    chars@[i as int],
                ));
                assert(before.drop_last().push(before.last().push(chars@[i as int])).drop_last()
                    =~= before.drop_last());
            }
        }
        i = i + 1;
    }
    let ghost all = crate::text::pieces(raw@, ',');
    assert(chars@.take(chars@.len() as int) =~= raw@);
    let word: String = trimmed(chars.as_slice(), start, chars.len());
    proof {
        assert(all.drop_last().push(all.last()) =~= all);
        lemma_words_push(all.drop_last(), all.last());
    }
    if !word.as_str().is_empty() {
        let ghost old_views = crate::text::views(r@);
        r.push(word);
        assert(crate::text::views(r@) =~= old_views.push(word@));
    }
    r
}

/// A word that a list can hold: not empty, without whitespace around it and
/// without a comma in it.
pub open spec fn is_entry(word: Seq<char>) -> bool {
    word.len() > 0 && crate::text::is_trimmed(word) && crate::text::lacks(word, ',')
}

proof fn lemma_words_are_entries(pieces: Seq<Seq<char>>)
    requires
        forall|i: int| 0 <= i < pieces.len() ==> crate::text::lacks(#[trigger] pieces[i], ','),
    ensures
        forall|i: int| 0 <= i < words_of(pieces).len() ==> is_entry(#[trigger] words_of(pieces)[i]),
    decreases pieces.len(),
{
    if pieces.len() == 0 {
        reveal(Seq::filter);
    } else {
        let init = pieces.drop_last();
        let last = pieces.last();
        lemma_words_are_entries(init);
        assert(init.push(last) =~= pieces);
        lemma_words_push(init, last);
        crate::text::law_trim(last);
        assert(crate::text::lacks(pieces[pieces.len() - 1], ','));
        assert(crate::text::lacks(crate::text::trim(last), ','));
    }
}

proof fn lemma_entries_are_words(words: Seq<Seq<char>>)
    requires
        forall|i: int| 0 <= i < words.len() ==> is_entry(#[trigger] words[i]),
    ensures
        words_of(words) == words,
    decreases words.len(),
{
    if words.len() == 0 {
        reveal(Seq::filter);
        assert(words_of(words) =~= words);
    } else {
        let init = words.drop_last();
        let last = words.last();
        lemma_entries_are_words(init);
        assert(init.push(last) =~= words);
        lemma_words_push(init, last);
        assert(is_entry(words[words.len() - 1]));
        crate::text::law_trim_of_trimmed(last);
    }
}

/// Every word of a list is not empty, has no whitespace around it and holds no
/// comma.
pub proof fn law_words_are_entries(raw: Seq<char>)
    ensures
        forall|i: int| 0 <= i < listed(raw).len() ==> is_entry(#[trigger] listed(raw)[i]),
{
    crate::text::law_pieces(raw, ',');
    lemma_words_are_entries(crate::text::pieces(raw, ','));
}

/// A list written from words gives those words again.
pub proof fn law_written_list_is_read(words: Seq<Seq<char>>)
    requires
        forall|i: int| 0 <= i < words.len() ==> is_entry(#[trigger] words[i]),
    ensures
        listed(crate::text::join(words, ',')) == words,
{
    if words.len() == 0 {
        law_nothing_listed(crate::text::join(words, ','));
        assert(listed(crate::text::join(words, ',')) =~= words);
    } else {
        assert forall|i: int| 0 <= i < words.len() implies crate::text::lacks(
            #[trigger] words[i],
            ',',
        ) by {
            assert(is_entry(words[i]));
        }
        crate::text::law_pieces_of_join(words, ',');
        lemma_entries_are_words(words);
    }
}

proof fn lemma_blank_pieces(pieces: Seq<Seq<char>>)
    requires
        forall|i: int| 0 <= i < pieces.len() ==> crate::text::trim(#[trigger] pieces[i]).len() == 0,
    ensures
        words_of(pieces).len() == 0,
    decreases pieces.len(),
{
    if pieces.len() == 0 {
        reveal(Seq::filter);
    } else {
        let init = pieces.drop_last();
        let last = pieces.last();
        lemma_blank_pieces(init);
        assert(init.push(last) =~= pieces);
        lemma_words_push(init, last);
        assert(crate::text::trim(pieces[pieces.len() - 1]).len() == 0);
    }
}

proof fn lemma_blank(s: Seq<char>)
    requires
        forall|i: int| 0 <= i < s.len() ==> crate::text::is_white(#[trigger] s[i]) || s[i] == ',',
    ensures
        forall|i: int|
            0 <= i < crate::text::pieces(s, ',').len() ==> crate::text::trim(
                #[trigger] crate::text::pieces(s, ',')[i],
            ).len() == 0,
    decreases s.len(),
{
    let all = crate::text::pieces(s, ',');
    if s.len() > 0 {
        let init = s.drop_last();
        assert forall|i: int| 0 <= i < init.len() implies crate::text::is_white(#[trigger] init[i])
            || init[i] == ',' by {
            assert(init[i] == s[i]);
        }
        lemma_blank(init);
        crate::text::law_pieces(init, ',');
        let before = crate::text::pieces(init, ',');
        let open = before.last();
        assert(crate::text::trim(before[before.len() - 1]).len() == 0);
        crate::text::law_trim_to_nothing(open);
        crate::text::law_trim_to_nothing(open.push(s.last()));
        assert(s[s.len() - 1] == s.last());
        crate::text::law_trim_to_nothing(Seq::<char>::empty());
        if s.last() != ',' {
            assert forall|i: int| 0 <= i < open.push(s.last()).len() implies crate::text::is_white(
                #[trigger] open.push(s.last())[i],
            ) by {
                if i < open.len() {
                    assert(open[i] == open.push(s.last())[i]);
                }
            }
        }
    } else {
        crate::text::law_trim_to_nothing(Seq::<char>::empty());
    }
}

/// The words of two lists with a comma between them are the words of the first
/// and then those of the second: each list is read on its own.
pub proof fn law_lists_apart(a: Seq<char>, b: Seq<char>)
    ensures
        listed(a + seq![','] + b) == listed(a) + listed(b),
{
    crate::text::law_pieces_apart(a, b, ',');
    lemma_words_apart(crate::text::pieces(a, ','), crate::text::pieces(b, ','));
}

proof fn lemma_words_apart(a: Seq<Seq<char>>, b: Seq<Seq<char>>)
    ensures
        words_of(a + b) == words_of(a) + words_of(b),
    decreases b.len(),
{
    if b.len() == 0 {
        reveal(Seq::filter);
        assert(a + b =~= a);
        assert(words_of(a) + words_of(b) =~= words_of(a));
    } else {
        let init = b.drop_last();
        lemma_words_apart(a, init);
        assert(init.push(b.last()) =~= b);
        assert((a + init).push(b.last()) =~= a + b);
        lemma_words_push(a + init, b.last());
        lemma_words_push(init, b.last());
        assert(words_of(a + b) =~= words_of(a) + words_of(b));
    }
}

/// What is written without a comma and is not all whitespace is one word: what
/// was written without the whitespace at its ends.
pub proof fn law_one_word(before: Seq<char>, word: Seq<char>, after: Seq<char>)
    requires
        word.len() > 0,
        !crate::text::is_white(word[0]),
        !crate::text::is_white(word[word.len() - 1]),
        forall|i: int| 0 <= i < word.len() ==> #[trigger] word[i] != ',',
        forall|i: int| 0 <= i < before.len() ==> crate::text::is_white(#[trigger] before[i]),
        forall|i: int| 0 <= i < after.len() ==> crate::text::is_white(#[trigger] after[i]),
    ensures
        listed(before + word + after) == seq![word],
{
    let raw = before + word + after;
    assert forall|i: int| 0 <= i < raw.len() implies #[trigger] raw[i] != ',' by {
        if i < before.len() {
            assert(crate::text::is_white(before[i]));
        } else if i < before.len() + word.len() {
            assert(word[i - before.len()] != ',');
        } else {
            assert(crate::text::is_white(after[i - before.len() - word.len()]));
        }
    }
    crate::text::law_pieces_apart(raw, raw, ',');
    assert(Seq::<Seq<char>>::empty().push(raw) =~= seq![raw]);
    lemma_words_push(Seq::empty(), raw);
    assert(words_of(Seq::empty()) =~= Seq::<Seq<char>>::empty()) by {
        reveal(Seq::filter);
    }
    crate::text::law_trim(raw);
    let (a, b) = choose|a: int, b: int|
        #![trigger raw.subrange(a, b)]
        {
            &&& 0 <= a <= b <= raw.len()
            &&& crate::text::trim(raw) == raw.subrange(a, b)
            &&& forall|i: int| 0 <= i < a ==> crate::text::is_white(#[trigger] raw[i])
            &&& forall|i: int| b <= i < raw.len() ==> crate::text::is_white(#[trigger] raw[i])
        };
    let from = before.len() as int;
    let to = from + word.len();
    assert(raw[from] == word[0]);
    assert(raw[to - 1] == word[word.len() - 1]);
    assert(a <= from && to <= b);
    assert(raw.subrange(a, b)[0] == raw[a]);
    assert(raw.subrange(a, b)[b - a - 1] == raw[b - 1]);
    if a < from {
        assert(raw[a] == before[a]);
    }
    if to < b {
        assert(raw[b - 1] == after[b - 1 - to]);
    }
    assert(raw.subrange(from, to) =~= word);
    assert(Seq::<Seq<char>>::empty().push(word) =~= seq![word]);
}

proof fn lemma_no_words(pieces: Seq<Seq<char>>)
    requires
        words_of(pieces).len() == 0,
    ensures
        forall|i: int| 0 <= i < pieces.len() ==> crate::text::trim(#[trigger] pieces[i]).len() == 0,
    decreases pieces.len(),
{
    if pieces.len() > 0 {
        let init = pieces.drop_last();
        let last = pieces.last();
        assert(init.push(last) =~= pieces);
        lemma_words_push(init, last);
        lemma_no_words(init);
        assert forall|i: int| 0 <= i < pieces.len() implies crate::text::trim(
            #[trigger] pieces[i],
        ).len() == 0 by {
            if i < init.len() {
                assert(init[i] == pieces[i]);
            }
        }
    }
}

proof fn lemma_blank_text(s: Seq<char>)
    requires
        forall|i: int|
            0 <= i < crate::text::pieces(s, ',').len() ==> crate::text::trim(
                #[trigger] crate::text::pieces(s, ',')[i],
            ).len() == 0,
    ensures
        forall|i: int| 0 <= i < s.len() ==> crate::text::is_white(#[trigger] s[i]) || s[i] == ',',
    decreases s.len(),
{
    if s.len() > 0 {
        let all = crate::text::pieces(s, ',');
        let init = s.drop_last();
        let before = crate::text::pieces(init, ',');
        crate::text::law_pieces(init, ',');
        let open = before.last();
        if s.last() != ',' {
            let grown = open.push(s.last());
            assert(all[before.len() - 1] == grown);
            crate::text::law_trim_to_nothing(grown);
            crate::text::law_trim_to_nothing(open);
            assert(grown[open.len() as int] == s.last());
            assert forall|i: int| 0 <= i < open.len() implies crate::text::is_white(
                #[trigger] open[i],
            ) by {
                assert(grown[i] == open[i]);
            }
        }
        assert forall|i: int| 0 <= i < before.len() implies crate::text::trim(
            #[trigger] before[i],
        ).len() == 0 by {
            if s.last() == ',' || i < before.len() - 1 {
                assert(all[i] == before[i]);
            }
        }
        lemma_blank_text(init);
        assert forall|i: int| 0 <= i < s.len() implies crate::text::is_white(#[trigger] s[i])
            || s[i] == ',' by {
            if i < init.len() {
                assert(init[i] == s[i]);
            }
        }
    }
}

/// A list has no words if and only if it holds nothing but commas and
/// whitespace; the empty one is such a list.
pub proof fn law_nothing_listed(raw: Seq<char>)
    ensures
        listed(raw).len() == 0 <==> forall|i: int|
            0 <= i < raw.len() ==> crate::text::is_white(#[trigger] raw[i]) || raw[i] == ',',
{
    if forall|i: int|
        0 <= i < raw.len() ==> crate::text::is_white(#[trigger] raw[i]) || raw[i] == ',' {
        lemma_blank(raw);
        lemma_blank_pieces(crate::text::pieces(raw, ','));
    }
    if listed(raw).len() == 0 {
        lemma_no_words(crate::text::pieces(raw, ','));
        lemma_blank_text(raw);
    }
}

} // verus!
