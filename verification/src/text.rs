//! Texts as sequences of characters: whitespace, words, pieces.

use vstd::prelude::*;

verus! {

/// The characters with the Unicode property `White_Space`.
pub open spec fn is_white(c: char) -> bool {
    ||| '\u{9}' <= c <= '\u{d}'
    ||| c == '\u{20}'
    ||| c == '\u{85}'
    ||| c == '\u{a0}'
    ||| c == '\u{1680}'
    ||| '\u{2000}' <= c <= '\u{200a}'
    ||| c == '\u{2028}'
    ||| c == '\u{2029}'
    ||| c == '\u{202f}'
    ||| c == '\u{205f}'
    ||| c == '\u{3000}'
}

/// Tells whether `c` is whitespace.
pub fn is_whitespace(c: char) -> (r: bool)
    ensures
        r == is_white(c),
{
    ('\u{9}' <= c && c <= '\u{d}') || c == '\u{20}' || c == '\u{85}' || c == '\u{a0}' || c
        == '\u{1680}' || ('\u{2000}' <= c && c <= '\u{200a}') || c == '\u{2028}' || c == '\u{2029}'
        || c == '\u{202f}' || c == '\u{205f}' || c == '\u{3000}'
}

/// The characters of `s`, one by one.
pub fn chars_of(s: &str) -> (r: Vec<char>)
    ensures
        r@ == s@,
{
    let mut r: Vec<char> = Vec::new();
    for c in it: s.chars()
        invariant
            it.seq() == s@,
            r@ == s@.take(it.index() as int),
    {
        r.push(c);
    }
    r
}

/// The text made of the characters from `from` up to `to`.
pub fn string_of(chars: &[char], from: usize, to: usize) -> (r: String)
    requires
        from <= to <= chars@.len(),
    ensures
        r@ == chars@.subrange(from as int, to as int),
{
    let mut r: String = String::new();
    let mut i: usize = from;
    while i < to
        invariant
            from <= i <= to <= chars@.len(),
            r@ == chars@.subrange(from as int, i as int),
        decreases to - i,
    {
        r.push(chars[i]);
        i = i + 1;
    }
    r
}

/// The contents of a list of strings.
pub open spec fn views(list: Seq<String>) -> Seq<Seq<char>> {
    list.map_values(|s: String| s@)
}

/// The contents of a list of strings are those of each string, in order.
pub proof fn law_views(list: Seq<String>)
    ensures
        views(list).len() == list.len(),
        forall|i: int| 0 <= i < list.len() ==> #[trigger] views(list)[i] == list[i]@,
{
}

/// Tells whether `text` is empty or nothing but whitespace.
pub fn is_blank(text: &str) -> (r: bool)
    ensures
        r == (trim(text@).len() == 0),
        r <==> forall|i: int| 0 <= i < text@.len() ==> is_white(#[trigger] text@[i]),
{
    let chars: Vec<char> = chars_of(text);
    proof {
        law_trim_to_nothing(text@);
    }
    let mut i: usize = 0;
    while i < chars.len()
        invariant
            i <= chars@.len(),
            chars@ == text@,
            forall|j: int| 0 <= j < i ==> is_white(#[trigger] chars@[j]),
            trim(text@).len() == 0 <==> forall|j: int|
                0 <= j < text@.len() ==> is_white(#[trigger] text@[j]),
        decreases chars@.len() - i,
    {
        if !is_whitespace(chars[i]) {
            assert(!is_white(text@[i as int]));
            return false;
        }
        i = i + 1;
    }
    true
}

/// The maximal runs of characters of `s` that are not whitespace, in order.
pub open spec fn tokens(s: Seq<char>) -> Seq<Seq<char>>
    decreases s.len(),
{
    if s.len() == 0 {
        Seq::empty()
    } else {
        let before = tokens(s.drop_last());
        if is_white(s.last()) {
            before
        } else if s.len() == 1 || is_white(s[s.len() - 2]) {
            before.push(seq![s.last()])
        } else {
            before.drop_last().push(before.last().push(s.last()))
        }
    }
}

/// The pieces of `s` between its separators `sep`, in order.
pub open spec fn pieces(s: Seq<char>, sep: char) -> Seq<Seq<char>>
    decreases s.len(),
{
    if s.len() == 0 {
        seq![Seq::empty()]
    } else {
        let before = pieces(s.drop_last(), sep);
        if s.last() == sep {
            before.push(Seq::empty())
        } else {
            before.drop_last().push(before.last().push(s.last()))
        }
    }
}

/// The parts put together, with one `sep` between each two.
pub open spec fn join(parts: Seq<Seq<char>>, sep: char) -> Seq<char>
    decreases parts.len(),
{
    if parts.len() == 0 {
        Seq::empty()
    } else if parts.len() == 1 {
        parts[0]
    } else {
        join(parts.drop_last(), sep).push(sep) + parts.last()
    }
}

/// `s` without the whitespace that it begins with.
pub open spec fn trim_start(s: Seq<char>) -> Seq<char>
    decreases s.len(),
{
    if s.len() > 0 && is_white(s[0]) {
        trim_start(s.drop_first())
    } else {
        s
    }
}

/// `s` without the whitespace that it ends with.
pub open spec fn trim_end(s: Seq<char>) -> Seq<char>
    decreases s.len(),
{
    if s.len() > 0 && is_white(s.last()) {
        trim_end(s.drop_last())
    } else {
        s
    }
}

/// `s` without the whitespace that it begins and ends with.
pub open spec fn trim(s: Seq<char>) -> Seq<char> {
    trim_end(trim_start(s))
}

/// A part that `tokens` gives: not empty, and without whitespace.
pub open spec fn is_token(s: Seq<char>) -> bool {
    s.len() > 0 && forall|i: int| 0 <= i < s.len() ==> !is_white(#[trigger] s[i])
}

/// Every part that `tokens` gives is a token, and a text that does not end with
/// whitespace has one.
pub proof fn law_tokens(s: Seq<char>)
    ensures
        forall|i: int| 0 <= i < tokens(s).len() ==> is_token(#[trigger] tokens(s)[i]),
        s.len() > 0 && !is_white(s.last()) ==> tokens(s).len() > 0,
    decreases s.len(),
{
    if s.len() > 0 {
        law_tokens(s.drop_last());
        let before = tokens(s.drop_last());
        if !is_white(s.last()) && !(s.len() == 1 || is_white(s[s.len() - 2])) {
            assert(s.drop_last().last() == s[s.len() - 2]);
            assert(is_token(before[before.len() - 1]));
        }
    }
}

/// Parts that are not empty make a text that is not empty.
pub proof fn lemma_join_len(parts: Seq<Seq<char>>, sep: char)
    requires
        forall|i: int| 0 <= i < parts.len() ==> (#[trigger] parts[i]).len() > 0,
    ensures
        join(parts, sep).len() == 0 <==> parts.len() == 0,
{
}

/// Joining with one part more.
pub proof fn lemma_join_push(parts: Seq<Seq<char>>, part: Seq<char>, sep: char)
    ensures
        join(parts.push(part), sep) == if parts.len() == 0 {
            part
        } else {
            join(parts, sep).push(sep) + part
        },
{
    assert(parts.push(part).drop_last() =~= parts);
}

/// Joining with one character more in the last part.
pub proof fn lemma_join_extend(parts: Seq<Seq<char>>, c: char, sep: char)
    requires
        parts.len() > 0,
    ensures
        join(parts.drop_last().push(parts.last().push(c)), sep) == join(parts, sep).push(c),
{
    let init = parts.drop_last();
    assert(init.push(parts.last()) =~= parts);
    lemma_join_push(init, parts.last(), sep);
    lemma_join_push(init, parts.last().push(c), sep);
    assert(join(init.push(parts.last().push(c)), sep) =~= join(parts, sep).push(c));
}

/// Nothing put together is the empty text, one part is itself, and two lists of
/// parts put together are the text of each with one separator between them.
pub proof fn law_join(a: Seq<Seq<char>>, b: Seq<Seq<char>>, part: Seq<char>, sep: char)
    ensures
        join(Seq::empty(), sep) == Seq::<char>::empty(),
        join(seq![part], sep) == part,
        a.len() > 0 && b.len() > 0 ==> join(a + b, sep) == join(a, sep) + seq![sep] + join(b, sep),
    decreases b.len(),
{
    if a.len() > 0 && b.len() == 1 {
        assert(a + b =~= a.push(b[0]));
        lemma_join_push(a, b[0], sep);
        assert(join(a, sep).push(sep) + b[0] =~= join(a, sep) + seq![sep] + join(b, sep));
    } else if a.len() > 0 && b.len() > 1 {
        law_join(a, b.drop_last(), part, sep);
        assert(a + b =~= (a + b.drop_last()).push(b.last()));
        lemma_join_push(a + b.drop_last(), b.last(), sep);
        assert(b =~= b.drop_last().push(b.last()));
        lemma_join_push(b.drop_last(), b.last(), sep);
        assert(join(a + b, sep) =~= join(a, sep) + seq![sep] + join(b, sep));
    }
}

/// Puts the words of `text` together with one space between each two.
pub fn collapse_whitespace(text: &str) -> (r: String)
    ensures
        r@ == join(tokens(text@), ' '),
        r@.filter(|c: char| !is_white(c)) == text@.filter(|c: char| !is_white(c)),
{
    let chars: Vec<char> = chars_of(text);
    let mut r: String = String::new();
    let mut i: usize = 0;
    while i < chars.len()
        invariant
            i <= chars@.len(),
            chars@ == text@,
            r@ == join(tokens(chars@.take(i as int)), ' '),
        decreases chars@.len() - i,
    {
        let c: char = chars[i];
        let ghost done = chars@.take(i as int);
        let ghost toks = tokens(done);
        proof {
            assert(chars@.take(i + 1).drop_last() =~= done);
            law_tokens(done);
            lemma_join_len(toks, ' ');
        }
        if !is_whitespace(c) {
            if i == 0 || is_whitespace(chars[i - 1]) {
                proof {
                    lemma_join_push(toks, seq![c], ' ');
                }
                if !r.as_str().is_empty() {
                    r.push(' ');
                }
                r.push(c);
                assert(r@ =~= join(toks.push(seq![c]), ' '));
            } else {
                proof {
                    assert(done.last() == chars@[i - 1]);
                    lemma_join_extend(toks, c, ' ');
                }
                r.push(c);
            }
        }
        i = i + 1;
    }
    assert(chars@.take(chars@.len() as int) =~= chars@);
    proof {
        law_tokens(text@);
        law_tokens_of_join(tokens(text@));
        law_tokens_keep_characters(text@);
        law_tokens_keep_characters(r@);
    }
    r
}

/// `part` stands in `s` at `i`.
pub open spec fn part_at(s: Seq<char>, part: Seq<char>, i: int) -> bool {
    0 <= i && i + part.len() <= s.len() && s.subrange(i, i + part.len()) == part
}

/// `part` stands in `s` somewhere.
pub open spec fn has_part(s: Seq<char>, part: Seq<char>) -> bool {
    exists|i: int| part_at(s, part, i)
}

/// `c` stands nowhere in `s`.
pub open spec fn lacks(s: Seq<char>, c: char) -> bool {
    forall|i: int| 0 <= i < s.len() ==> #[trigger] s[i] != c
}

/// `s` neither begins nor ends with whitespace.
pub open spec fn is_trimmed(s: Seq<char>) -> bool {
    s.len() > 0 ==> !is_white(s[0]) && !is_white(s.last())
}

/// A part stands in a text exactly where the text is something, the part, and
/// something more.
pub proof fn law_has_part(s: Seq<char>, part: Seq<char>)
    ensures
        has_part(s, part) <==> exists|a: Seq<char>, b: Seq<char>| s == #[trigger] (a + part + b),
        forall|i: int|
            part_at(s, part, i) <==> 0 <= i && i + part.len() <= s.len() && s == #[trigger] s.take(
                i,
            ) + part + s.skip(i + part.len()),
{
    assert forall|i: int|
        part_at(s, part, i) <==> 0 <= i && i + part.len() <= s.len() && s == #[trigger] s.take(i)
            + part + s.skip(i + part.len()) by {
        if part_at(s, part, i) {
            assert(s =~= s.take(i) + part + s.skip(i + part.len()));
        }
        if 0 <= i && i + part.len() <= s.len() && s == s.take(i) + part + s.skip(i + part.len()) {
            let whole = s.take(i) + part + s.skip(i + part.len());
            assert(whole.subrange(i, i + part.len()) =~= part);
        }
    }
    if has_part(s, part) {
        let i = choose|i: int| part_at(s, part, i);
        assert(s == s.take(i) + part + s.skip(i + part.len()));
    }
    if exists|a: Seq<char>, b: Seq<char>| s == #[trigger] (a + part + b) {
        let (a, b) = choose|a: Seq<char>, b: Seq<char>| s == #[trigger] (a + part + b);
        assert(s.subrange(a.len() as int, (a.len() + part.len()) as int) =~= part);
        assert(part_at(s, part, a.len() as int));
    }
}

/// Whitespace keeps words apart, whichever it is: the tokens on either side of it
/// are the tokens of either side.
pub proof fn law_tokens_apart(a: Seq<char>, c: char, b: Seq<char>)
    requires
        is_white(c),
    ensures
        tokens(a + seq![c] + b) == tokens(a) + tokens(b),
    decreases b.len(),
{
    let whole = a + seq![c] + b;
    if b.len() == 0 {
        assert(whole =~= a.push(c));
        assert(whole.drop_last() =~= a);
        assert(tokens(a) + tokens(b) =~= tokens(a));
    } else {
        let init = b.drop_last();
        law_tokens_apart(a, c, init);
        law_tokens(init);
        assert(whole.drop_last() =~= a + seq![c] + init);
        let x = b.last();
        if !is_white(x) {
            if init.len() == 0 {
                assert(whole[whole.len() - 2] == c);
                assert((tokens(a) + tokens(init)).push(seq![x]) =~= tokens(a) + tokens(b));
            } else {
                assert(whole[whole.len() - 2] == b[b.len() - 2]);
                assert(init.last() == b[b.len() - 2]);
                let before = tokens(a) + tokens(init);
                if is_white(b[b.len() - 2]) {
                    assert(before.push(seq![x]) =~= tokens(a) + tokens(b));
                } else {
                    assert(before.last() == tokens(init).last());
                    assert(before.drop_last().push(before.last().push(x)) =~= tokens(a) + tokens(
                        b,
                    ));
                }
            }
        }
    }
}

/// A text without whitespace is one token, whatever its length, and the empty
/// text has none.
pub proof fn law_one_token(t: Seq<char>)
    requires
        forall|i: int| 0 <= i < t.len() ==> !is_white(#[trigger] t[i]),
    ensures
        tokens(t) == if t.len() > 0 {
            seq![t]
        } else {
            Seq::empty()
        },
{
    if t.len() > 0 {
        lemma_tokens_append(Seq::empty(), t);
        assert(Seq::<char>::empty() + t =~= t);
        assert(tokens(Seq::<char>::empty()).push(t) =~= seq![t]);
    }
}

/// The tokens of a text hold its characters but for the whitespace, in order.
pub proof fn law_tokens_keep_characters(s: Seq<char>)
    ensures
        tokens(s).flatten() == s.filter(|c: char| !is_white(c)),
    decreases s.len(),
{
    reveal(Seq::filter);
    let all = tokens(s);
    if s.len() == 0 {
        assert(all.flatten() =~= s);
    } else {
        let before = tokens(s.drop_last());
        law_tokens(s.drop_last());
        law_tokens_keep_characters(s.drop_last());
        before.lemma_flatten_and_flatten_alt_are_equivalent();
        all.lemma_flatten_and_flatten_alt_are_equivalent();
        if !is_white(s.last()) {
            if s.len() == 1 || is_white(s[s.len() - 2]) {
                assert(all.drop_last() =~= before);
                assert(all.flatten_alt() =~= before.flatten_alt().push(s.last()));
            } else {
                assert(s.drop_last().last() == s[s.len() - 2]);
                assert(all.drop_last() =~= before.drop_last());
                assert(all.flatten_alt() =~= before.flatten_alt().push(s.last()));
            }
        }
    }
}

/// Text that begins or goes on after whitespace gets one token more from a
/// token behind it.
proof fn lemma_tokens_append(s: Seq<char>, t: Seq<char>)
    requires
        is_token(t),
        s.len() > 0 ==> is_white(s.last()),
    ensures
        tokens(s + t) == tokens(s).push(t),
    decreases t.len(),
{
    let whole = s + t;
    assert(whole.drop_last() =~= s + t.drop_last());
    if t.len() == 1 {
        assert(s + t.drop_last() =~= s);
        assert(t =~= seq![whole.last()]);
        if s.len() > 0 {
            assert(whole[whole.len() - 2] == s.last());
        }
    } else {
        lemma_tokens_append(s, t.drop_last());
        assert(whole[whole.len() - 2] == t[t.len() - 2]);
        let before = tokens(s + t.drop_last());
        assert(before.last().push(t.last()) =~= t);
        assert(before.drop_last().push(t) =~= tokens(s).push(t));
    }
}

/// Tokens put together with single spaces are found again.
pub proof fn law_tokens_of_join(parts: Seq<Seq<char>>)
    requires
        forall|i: int| 0 <= i < parts.len() ==> is_token(#[trigger] parts[i]),
    ensures
        tokens(join(parts, ' ')) == parts,
    decreases parts.len(),
{
    if parts.len() == 0 {
        assert(tokens(join(parts, ' ')) =~= parts);
    } else if parts.len() == 1 {
        lemma_tokens_append(Seq::empty(), parts[0]);
        assert(Seq::<char>::empty() + parts[0] =~= parts[0]);
        assert(tokens(Seq::<char>::empty()).push(parts[0]) =~= parts);
    } else {
        let init = parts.drop_last();
        law_tokens_of_join(init);
        let head = join(init, ' ').push(' ');
        assert(head.drop_last() =~= join(init, ' '));
        lemma_tokens_append(head, parts.last());
        assert(init.push(parts.last()) =~= parts);
    }
}

/// The pieces of a text hold no separator, and joined they are the text.
pub proof fn law_pieces(s: Seq<char>, sep: char)
    ensures
        pieces(s, sep).len() > 0,
        forall|i: int| 0 <= i < pieces(s, sep).len() ==> lacks(#[trigger] pieces(s, sep)[i], sep),
        join(pieces(s, sep), sep) == s,
    decreases s.len(),
{
    if s.len() > 0 {
        law_pieces(s.drop_last(), sep);
        let before = pieces(s.drop_last(), sep);
        assert(s.drop_last().push(s.last()) =~= s);
        if s.last() == sep {
            lemma_join_push(before, Seq::empty(), sep);
            assert(join(before, sep).push(sep) + Seq::<char>::empty() =~= s);
        } else {
            lemma_join_extend(before, s.last(), sep);
            assert(lacks(before[before.len() - 1], sep));
        }
    } else {
        assert(join(pieces(s, sep), sep) =~= s);
    }
}

/// A piece without separators behind a separator is one piece more.
proof fn lemma_pieces_append(s: Seq<char>, t: Seq<char>, sep: char)
    requires
        lacks(t, sep),
    ensures
        pieces(s.push(sep) + t, sep) == pieces(s, sep).push(t),
    decreases t.len(),
{
    let whole = s.push(sep) + t;
    if t.len() == 0 {
        assert(whole =~= s.push(sep));
        assert(whole.drop_last() =~= s);
        assert(t =~= Seq::empty());
    } else {
        assert(whole.drop_last() =~= s.push(sep) + t.drop_last());
        lemma_pieces_append(s, t.drop_last(), sep);
        let before = pieces(s.push(sep) + t.drop_last(), sep);
        assert(before.last().push(t.last()) =~= t);
        assert(before.drop_last().push(t) =~= pieces(s, sep).push(t));
        assert(whole.last() == t[t.len() - 1]);
    }
}

/// A text without separators is one piece.
proof fn lemma_one_piece(s: Seq<char>, sep: char)
    requires
        lacks(s, sep),
    ensures
        pieces(s, sep) == seq![s],
    decreases s.len(),
{
    if s.len() > 0 {
        lemma_one_piece(s.drop_last(), sep);
        assert(s.last() == s[s.len() - 1]);
        assert(s.drop_last().push(s.last()) =~= s);
        assert(pieces(s, sep) =~= seq![s]);
    } else {
        assert(s =~= Seq::empty());
    }
}

/// Parts without separators, put together with separators, are found again.
pub proof fn law_pieces_of_join(parts: Seq<Seq<char>>, sep: char)
    requires
        parts.len() > 0,
        forall|i: int| 0 <= i < parts.len() ==> lacks(#[trigger] parts[i], sep),
    ensures
        pieces(join(parts, sep), sep) == parts,
    decreases parts.len(),
{
    if parts.len() == 1 {
        lemma_one_piece(parts[0], sep);
        assert(seq![parts[0]] =~= parts);
    } else {
        let init = parts.drop_last();
        law_pieces_of_join(init, sep);
        lemma_pieces_append(join(init, sep), parts.last(), sep);
        assert(init.push(parts.last()) =~= parts);
    }
}

/// The pieces of two texts with a separator between them are the pieces of
/// either, and a text without separators is one piece.
pub proof fn law_pieces_apart(a: Seq<char>, b: Seq<char>, sep: char)
    ensures
        pieces(a + seq![sep] + b, sep) == pieces(a, sep) + pieces(b, sep),
        (forall|i: int| 0 <= i < a.len() ==> #[trigger] a[i] != sep) ==> pieces(a, sep) == seq![a],
{
    law_pieces(a, sep);
    law_pieces(b, sep);
    let parts = pieces(a, sep) + pieces(b, sep);
    law_join(pieces(a, sep), pieces(b, sep), a, sep);
    assert forall|i: int| 0 <= i < parts.len() implies lacks(#[trigger] parts[i], sep) by {
        if i < pieces(a, sep).len() {
            assert(parts[i] == pieces(a, sep)[i]);
        } else {
            assert(parts[i] == pieces(b, sep)[i - pieces(a, sep).len()]);
        }
    }
    law_pieces_of_join(parts, sep);
    if forall|i: int| 0 <= i < a.len() ==> #[trigger] a[i] != sep {
        lemma_one_piece(a, sep);
    }
}

proof fn lemma_trim_start(s: Seq<char>)
    ensures
        trim_start(s).len() <= s.len(),
        trim_start(s) == s.skip(s.len() - trim_start(s).len()),
        trim_start(s).len() > 0 ==> !is_white(trim_start(s)[0]),
        forall|i: int| 0 <= i < s.len() - trim_start(s).len() ==> is_white(#[trigger] s[i]),
    decreases s.len(),
{
    if s.len() > 0 && is_white(s[0]) {
        let rest = s.drop_first();
        lemma_trim_start(rest);
        assert(rest.skip(rest.len() - trim_start(rest).len()) =~= s.skip(
            s.len() - trim_start(s).len(),
        ));
        assert forall|i: int| 0 <= i < s.len() - trim_start(s).len() implies is_white(
            #[trigger] s[i],
        ) by {
            if i > 0 {
                assert(s[i] == rest[i - 1]);
            }
        }
    } else {
        assert(s.skip(0) =~= s);
    }
}

proof fn lemma_trim_end(s: Seq<char>)
    ensures
        trim_end(s).len() <= s.len(),
        trim_end(s) == s.take(trim_end(s).len() as int),
        trim_end(s).len() > 0 ==> !is_white(trim_end(s).last()),
        forall|i: int| trim_end(s).len() <= i < s.len() ==> is_white(#[trigger] s[i]),
    decreases s.len(),
{
    if s.len() > 0 && is_white(s.last()) {
        let rest = s.drop_last();
        lemma_trim_end(rest);
        assert(rest.take(trim_end(rest).len() as int) =~= s.take(trim_end(s).len() as int));
        assert forall|i: int| trim_end(s).len() <= i < s.len() implies is_white(
            #[trigger] s[i],
        ) by {
            if i < rest.len() {
                assert(s[i] == rest[i]);
            }
        }
    } else {
        assert(s.take(s.len() as int) =~= s);
    }
}

/// Trimming takes whitespace off both ends and nothing else: what is left
/// stands in the text with only whitespace around it, and neither begins nor
/// ends with whitespace.
pub proof fn law_trim(s: Seq<char>)
    ensures
        is_trimmed(trim(s)),
        trim(s).len() > 0 ==> !is_white(trim(s)[0]) && !is_white(trim(s)[trim(s).len() - 1]),
        exists|a: int, b: int|
            #![trigger s.subrange(a, b)]
            {
                &&& 0 <= a <= b <= s.len()
                &&& trim(s) == s.subrange(a, b)
                &&& forall|i: int| 0 <= i < a ==> is_white(#[trigger] s[i])
                &&& forall|i: int| b <= i < s.len() ==> is_white(#[trigger] s[i])
            },
{
    lemma_trim_start(s);
    let mid = trim_start(s);
    lemma_trim_end(mid);
    let a = s.len() - mid.len();
    let b = a + trim(s).len();
    assert(trim(s) =~= s.subrange(a, b));
    assert forall|i: int| b <= i < s.len() implies is_white(#[trigger] s[i]) by {
        assert(s[i] == mid[i - a]);
    }
    if trim(s).len() > 0 {
        assert(trim(s)[0] == mid[0]);
    }
}

/// A trimmed text stays as it is.
pub proof fn law_trim_of_trimmed(s: Seq<char>)
    requires
        is_trimmed(s),
    ensures
        trim(s) == s,
{
}

/// Nothing is left of a text by trimming exactly where it is all whitespace.
pub proof fn law_trim_to_nothing(s: Seq<char>)
    ensures
        trim(s).len() == 0 <==> forall|i: int| 0 <= i < s.len() ==> is_white(#[trigger] s[i]),
{
    lemma_trim_start(s);
    let mid = trim_start(s);
    lemma_trim_end(mid);
    let a = s.len() - mid.len();
    if trim(s).len() == 0 {
        assert forall|i: int| 0 <= i < s.len() implies is_white(#[trigger] s[i]) by {
            if i >= a {
                assert(s[i] == mid[i - a]);
            }
        }
    } else {
        assert(mid[0] == s[a]);
    }
}

} // verus!
