//! Searching a text and cutting it, by the bytes of its UTF-8 encoding.

use vstd::prelude::*;
use vstd::utf8::*;

verus! {

/// `needle` stands in `hay` at the offset `at`.
pub open spec fn occurs_at(hay: Seq<u8>, needle: Seq<u8>, at: int) -> bool {
    0 <= at && at + needle.len() <= hay.len() && hay.subrange(at, at + needle.len()) == needle
}

/// `needle` stands in `hay` somewhere.
pub open spec fn occurs(hay: Seq<u8>, needle: Seq<u8>) -> bool {
    exists|at: int| occurs_at(hay, needle, at)
}

/// `needle` stands in `hay` at the offset `at`, and at no smaller one.
pub open spec fn is_first_at(hay: Seq<u8>, needle: Seq<u8>, at: int) -> bool {
    occurs_at(hay, needle, at) && forall|q: int| q < at ==> !occurs_at(hay, needle, q)
}

/// The smallest offset at which `needle` stands in `hay`.
pub open spec fn first_at(hay: Seq<u8>, needle: Seq<u8>) -> Option<int> {
    if occurs(hay, needle) {
        Some(choose|at: int| is_first_at(hay, needle, at))
    } else {
        None
    }
}

/// A first occurrence is the one that `first_at` gives.
proof fn lemma_first_at(hay: Seq<u8>, needle: Seq<u8>, at: int)
    requires
        is_first_at(hay, needle, at),
    ensures
        first_at(hay, needle) == Some(at),
{
    let other = choose|p: int| is_first_at(hay, needle, p);
    assert(is_first_at(hay, needle, other));
    assert(!(other < at) && !(at < other));
}

/// Where bytes stand in others at all there is a first place.
proof fn lemma_first_exists(hay: Seq<u8>, needle: Seq<u8>, p: int)
    requires
        occurs_at(hay, needle, p),
    ensures
        exists|at: int| is_first_at(hay, needle, at),
    decreases p,
{
    if exists|q: int| q < p && occurs_at(hay, needle, q) {
        let q = choose|q: int| q < p && occurs_at(hay, needle, q);
        lemma_first_exists(hay, needle, q);
    } else {
        assert(is_first_at(hay, needle, p));
    }
}

/// A first offset is one at which the bytes stand while they stand at none
/// before; there is none only where they stand nowhere.
pub proof fn law_first_at(hay: Seq<u8>, needle: Seq<u8>, at: int)
    ensures
        first_at(hay, needle) == Some(at) <==> 0 <= at <= hay.len() - needle.len() && hay.subrange(
            at,
            at + needle.len(),
        ) == needle && forall|q: int|
            0 <= q < at ==> #[trigger] hay.subrange(q, q + needle.len()) != needle,
        first_at(hay, needle) is None <==> forall|q: int|
            0 <= q <= hay.len() - needle.len() ==> #[trigger] hay.subrange(q, q + needle.len())
                != needle,
{
    if occurs(hay, needle) {
        let p = choose|p: int| occurs_at(hay, needle, p);
        lemma_first_exists(hay, needle, p);
        let first = choose|p: int| is_first_at(hay, needle, p);
        lemma_first_at(hay, needle, first);
        assert(hay.subrange(first, first + needle.len()) == needle);
        if 0 <= at <= hay.len() - needle.len() && hay.subrange(at, at + needle.len()) == needle
            && forall|q: int|
            0 <= q < at ==> #[trigger] hay.subrange(q, q + needle.len()) != needle {
            assert(occurs_at(hay, needle, at));
            assert forall|q: int| q < at implies !occurs_at(hay, needle, q) by {
                if occurs_at(hay, needle, q) {
                    assert(hay.subrange(q, q + needle.len()) == needle);
                }
            }
            lemma_first_at(hay, needle, at);
        }
        assert forall|q: int| 0 <= q < first implies #[trigger] hay.subrange(q, q + needle.len())
            != needle by {
            assert(!occurs_at(hay, needle, q));
        }
    } else {
        assert forall|q: int| 0 <= q <= hay.len() - needle.len() implies #[trigger] hay.subrange(
            q,
            q + needle.len(),
        ) != needle by {
            assert(!occurs_at(hay, needle, q));
        }
    }
}

/// The byte offset at which `pattern` first stands in `text`.
pub fn find(text: &str, pattern: &str) -> (r: Option<usize>)
    ensures
        match r {
            Some(at) => first_at(encode_utf8(text@), encode_utf8(pattern@)) == Some(at as int),
            None => first_at(encode_utf8(text@), encode_utf8(pattern@)) is None,
        },
{
    let hay: &[u8] = text.as_bytes();
    let needle: &[u8] = pattern.as_bytes();
    if needle.len() > hay.len() {
        return None;
    }
    let total: usize = hay.len();
    let last: usize = total - needle.len();
    let mut at: usize = 0;
    loop
        invariant
            at <= last,
            last + needle@.len() == total == hay@.len(),
            hay@ == encode_utf8(text@),
            needle@ == encode_utf8(pattern@),
            forall|q: int| q < at ==> !occurs_at(hay@, needle@, q),
        decreases last - at,
    {
        let mut i: usize = 0;
        while i < needle.len() && hay[at + i] == needle[i]
            invariant
                i <= needle@.len(),
                at <= last,
                last + needle@.len() == total == hay@.len(),
                forall|j: int| 0 <= j < i ==> hay@[at + j] == needle@[j],
            decreases needle@.len() - i,
        {
            i = i + 1;
        }
        if i == needle.len() {
            assert(hay@.subrange(at as int, at + needle@.len()) =~= needle@);
            proof {
                lemma_first_at(hay@, needle@, at as int);
            }
            return Some(at);
        }
        assert(!occurs_at(hay@, needle@, at as int)) by {
            if occurs_at(hay@, needle@, at as int) {
                assert(hay@.subrange(at as int, at + needle@.len())[i as int] == needle@[i as int]);
            }
        }
        if at == last {
            assert(forall|q: int| !occurs_at(hay@, needle@, q));
            return None;
        }
        at = at + 1;
    }
}

/// Tells whether `part` stands in `text`.
pub fn contains(text: &str, part: &str) -> (r: bool)
    ensures
        r == crate::text::has_part(text@, part@),
        r <==> exists|a: Seq<char>, b: Seq<char>| text@ == #[trigger] (a + part@ + b),
{
    proof {
        crate::text::law_has_part(text@, part@);
        law_occurs_by_characters(text@, part@);
    }
    find(text, part).is_some()
}

/// The bytes from `start` up to `end` of the text can be taken out and leave a
/// text: the two offsets are in order and stand between characters.
pub open spec fn can_cut(text: Seq<char>, start: int, end: int) -> bool {
    &&& start <= end
    &&& is_char_boundary(encode_utf8(text), start)
    &&& is_char_boundary(encode_utf8(text), end)
}

/// The text with one space in place of its bytes from `start` up to `end`.
pub open spec fn cut(text: Seq<char>, start: int, end: int) -> Seq<char> {
    let bytes = encode_utf8(text);
    decode_utf8(bytes.subrange(0, start)) + seq![' '] + decode_utf8(
        bytes.subrange(end, bytes.len() as int),
    )
}

/// Puts one space in place of the bytes of `text` from `start` up to `end`,
/// where that leaves a text.
pub fn cut_span(text: &str, start: usize, end: usize) -> (r: Option<String>)
    ensures
        match r {
            Some(s) => can_cut(text@, start as int, end as int) && s@ == cut(
                text@,
                start as int,
                end as int,
            ),
            None => !can_cut(text@, start as int, end as int),
        },
{
    if start > end || !text.is_char_boundary(start) || !text.is_char_boundary(end) {
        return None;
    }
    let (head, _) = text.split_at(start);
    let (_, tail) = text.split_at(end);
    let mut r: String = String::new();
    r.append(head);
    r.push(' ');
    r.append(tail);
    proof {
        encode_utf8_decode_utf8(head@);
        encode_utf8_decode_utf8(tail@);
        assert(r@ =~= head@ + seq![' '] + tail@);
    }
    Some(r)
}

/// The bytes of two texts put together are the bytes of each, in order.
pub proof fn lemma_encode_concat(a: Seq<char>, b: Seq<char>)
    ensures
        encode_utf8(a + b) == encode_utf8(a) + encode_utf8(b),
    decreases a.len(),
{
    if a.len() == 0 {
        assert(a + b =~= b);
        assert(encode_utf8(a) + encode_utf8(b) =~= encode_utf8(b));
    } else {
        lemma_encode_concat(a.drop_first(), b);
        assert((a + b).drop_first() =~= a.drop_first() + b);
        assert(encode_utf8(a + b) =~= encode_utf8(a) + encode_utf8(b));
    }
}

/// A space is one byte.
pub proof fn lemma_encode_space()
    ensures
        encode_utf8(seq![' ']) == seq![0x20u8],
{
    assert(is_ascii_chars(seq![' ']));
    is_ascii_chars_encode_utf8(seq![' ']);
    assert(encode_utf8(seq![' ']) =~= seq![0x20u8]);
}

/// The bytes of a text with a span cut out.
pub proof fn lemma_cut_bytes(text: Seq<char>, start: int, end: int)
    requires
        can_cut(text, start, end),
    ensures
        0 <= start <= end <= encode_utf8(text).len(),
        encode_utf8(cut(text, start, end)) == encode_utf8(text).subrange(0, start)
            + seq![0x20u8] + encode_utf8(text).subrange(end, encode_utf8(text).len() as int),
{
    let bytes = encode_utf8(text);
    encode_utf8_valid_utf8(text);
    let head = bytes.subrange(0, start);
    let tail = bytes.subrange(end, bytes.len() as int);
    valid_utf8_split(bytes, start);
    valid_utf8_split(bytes, end);
    decode_utf8_encode_utf8(head);
    decode_utf8_encode_utf8(tail);
    lemma_encode_space();
    lemma_encode_concat(decode_utf8(head), seq![' ']);
    lemma_encode_concat(decode_utf8(head) + seq![' '], decode_utf8(tail));
}

/// A text that is not empty stands nowhere in an empty one.
pub proof fn lemma_no_empty_match(hay: Seq<char>, needle: Seq<char>)
    requires
        hay.len() == 0,
        needle.len() > 0,
    ensures
        first_at(encode_utf8(hay), encode_utf8(needle)) is None,
{
    encode_utf8_first_scalar(needle);
    assert(encode_utf8(needle).len() > 0);
}

/// The end of the first of two texts stands between characters.
proof fn lemma_boundary_between(a: Seq<char>, b: Seq<char>)
    ensures
        is_char_boundary(encode_utf8(a + b), encode_utf8(a).len() as int),
    decreases a.len(),
{
    encode_utf8_valid_utf8(a + b);
    lemma_encode_concat(a, b);
    if a.len() > 0 {
        let whole = a + b;
        let bytes = encode_utf8(whole);
        encode_utf8_first_scalar(whole);
        assert(whole.drop_first() =~= a.drop_first() + b);
        assert(pop_first_scalar(bytes) =~= encode_utf8(whole.drop_first()));
        lemma_boundary_between(a.drop_first(), b);
        assert(encode_utf8(a).len() == encode_scalar(a[0] as u32).len() + encode_utf8(
            a.drop_first(),
        ).len());
    }
}

/// Cutting out the middle of three texts leaves the outer two with a space
/// between them.
pub proof fn lemma_cut_middle(before: Seq<char>, middle: Seq<char>, after: Seq<char>)
    ensures
        ({
            let text = before + middle + after;
            let start = encode_utf8(before).len() as int;
            let end = start + encode_utf8(middle).len();
            can_cut(text, start, end) && cut(text, start, end) == before + seq![' '] + after
        }),
{
    let text = before + middle + after;
    let bytes = encode_utf8(text);
    let start = encode_utf8(before).len() as int;
    let end = start + encode_utf8(middle).len();
    lemma_encode_concat(before, middle);
    lemma_encode_concat(before + middle, after);
    lemma_boundary_between(before + middle, after);
    assert(text =~= before + (middle + after));
    lemma_boundary_between(before, middle + after);
    assert(bytes.subrange(0, start) =~= encode_utf8(before));
    assert(bytes.subrange(end, bytes.len() as int) =~= encode_utf8(after));
    encode_utf8_decode_utf8(before);
    encode_utf8_decode_utf8(after);
}

/// A text can be cut exactly where it is three texts one behind the other and the
/// offsets are where the second begins and ends; one space stands in its place
/// then.
pub proof fn law_cut(text: Seq<char>, start: int, end: int)
    ensures
        can_cut(text, start, end) <==> exists|a: Seq<char>, m: Seq<char>, b: Seq<char>|
            text == #[trigger] (a + m + b) && start == encode_utf8(a).len() && end == start
                + encode_utf8(m).len(),
        forall|a: Seq<char>, m: Seq<char>, b: Seq<char>|
            text == #[trigger] (a + m + b) && start == encode_utf8(a).len() && end == start
                + encode_utf8(m).len() ==> cut(text, start, end) == a + seq![' '] + b,
{
    assert forall|a: Seq<char>, m: Seq<char>, b: Seq<char>|
        text == #[trigger] (a + m + b) && start == encode_utf8(a).len() && end == start
            + encode_utf8(m).len() implies can_cut(text, start, end) && cut(text, start, end) == a
        + seq![' '] + b by {
        lemma_cut_middle(a, m, b);
    }
    if can_cut(text, start, end) {
        let bytes = encode_utf8(text);
        encode_utf8_valid_utf8(text);
        lemma_cut_bytes(text, start, end);
        valid_utf8_split(bytes, start);
        let tail = bytes.subrange(start, bytes.len() as int);
        let a = decode_utf8(bytes.subrange(0, start));
        let rest = decode_utf8(tail);
        decode_utf8_encode_utf8(bytes.subrange(0, start));
        decode_utf8_encode_utf8(tail);
        decode_utf8_split(bytes, start);
        encode_utf8_decode_utf8(text);
        assert(text == a + rest);
        valid_utf8_split(bytes, end);
        let head = bytes.subrange(0, end);
        let b = decode_utf8(bytes.subrange(end, bytes.len() as int));
        let am = decode_utf8(head);
        decode_utf8_encode_utf8(head);
        decode_utf8_encode_utf8(bytes.subrange(end, bytes.len() as int));
        decode_utf8_split(bytes, end);
        assert(text == am + b);
        assert(head.subrange(0, start) =~= bytes.subrange(0, start));
        lemma_prefix(am, a);
        let m = am.skip(a.len() as int);
        assert(am =~= a + m);
        lemma_encode_concat(a, m);
        assert(text =~= a + m + b);
    }
}

/// A text whose bytes are the first bytes of another begins the other.
proof fn lemma_prefix(whole: Seq<char>, part: Seq<char>)
    requires
        encode_utf8(part).len() <= encode_utf8(whole).len(),
        encode_utf8(whole).subrange(0, encode_utf8(part).len() as int) == encode_utf8(part),
    ensures
        part.len() <= whole.len(),
        whole.take(part.len() as int) == part,
    decreases part.len(),
{
    if part.len() == 0 {
        assert(whole.take(0) =~= part);
    } else {
        let a = encode_utf8(whole);
        let b = encode_utf8(part);
        encode_utf8_first_scalar(part);
        assert(b.len() > 0);
        assert(whole.len() > 0);
        encode_utf8_first_scalar(whole);
        assert forall|i: int| 0 <= i < b.len() implies a[i] == b[i] by {
            assert(a.subrange(0, b.len() as int)[i] == b[i]);
        }
        assert(decode_first_scalar(a) == decode_first_scalar(b));
        char_u32_cast(whole[0], whole[0] as u32);
        char_u32_cast(part[0], part[0] as u32);
        assert(whole[0] == part[0]);
        let n = encode_scalar(part[0] as u32).len() as int;
        let rest_a = encode_utf8(whole.drop_first());
        let rest_b = encode_utf8(part.drop_first());
        assert(a =~= encode_scalar(part[0] as u32) + rest_a);
        assert(b =~= encode_scalar(part[0] as u32) + rest_b);
        assert(rest_a.subrange(0, rest_b.len() as int) =~= rest_b) by {
            assert forall|i: int| 0 <= i < rest_b.len() implies rest_a[i] == rest_b[i] by {
                assert(a[n + i] == rest_a[i]);
                assert(b[n + i] == rest_b[i]);
            }
        }
        lemma_prefix(whole.drop_first(), part.drop_first());
        assert(whole.take(part.len() as int) =~= part) by {
            assert forall|i: int| 0 <= i < part.len() implies whole[i] == part[i] by {
                if i > 0 {
                    assert(whole.drop_first().take(part.len() - 1)[i - 1] == part.drop_first()[i
                        - 1]);
                }
            }
        }
    }
}

/// The bytes of a text that is not empty begin with a byte that begins a
/// character.
proof fn lemma_first_byte(text: Seq<char>)
    requires
        text.len() > 0,
    ensures
        encode_utf8(text).len() > 0,
        !is_continuation_byte(encode_utf8(text)[0]),
{
    encode_utf8_first_scalar(text);
}

/// Searching by bytes finds a text where it stands by characters, and nowhere
/// else.
pub proof fn law_search_by_characters(hay: Seq<char>, needle: Seq<char>, at: int)
    requires
        needle.len() > 0,
    ensures
        occurs_at(encode_utf8(hay), encode_utf8(needle), at) <==> exists|i: int|
            #[trigger] crate::text::part_at(hay, needle, i) && at == encode_utf8(
                hay.take(i),
            ).len(),
{
    let a = encode_utf8(hay);
    let b = encode_utf8(needle);
    if occurs_at(a, b, at) {
        lemma_first_byte(needle);
        assert(a.subrange(at, at + b.len())[0] == b[0]);
        encode_utf8_valid_utf8(hay);
        is_char_boundary_iff_not_is_continuation_byte(a, at);
        valid_utf8_split(a, at);
        let head = decode_utf8(a.subrange(0, at));
        let tail = decode_utf8(a.subrange(at, a.len() as int));
        decode_utf8_encode_utf8(a.subrange(0, at));
        decode_utf8_encode_utf8(a.subrange(at, a.len() as int));
        decode_utf8_split(a, at);
        encode_utf8_decode_utf8(hay);
        assert(hay == head + tail);
        assert(encode_utf8(tail).subrange(0, b.len() as int) =~= b);
        lemma_prefix(tail, needle);
        let i = head.len() as int;
        assert(hay.take(i) =~= head);
        assert(hay.subrange(i, i + needle.len()) =~= needle) by {
            assert(hay.subrange(i, i + needle.len()) =~= tail.take(needle.len() as int));
        }
        assert(crate::text::part_at(hay, needle, i));
    }
    if exists|i: int| #[trigger]
        crate::text::part_at(hay, needle, i) && at == encode_utf8(hay.take(i)).len() {
        let i = choose|i: int| #[trigger]
            crate::text::part_at(hay, needle, i) && at == encode_utf8(hay.take(i)).len();
        let rest = hay.skip(i + needle.len());
        assert(hay =~= hay.take(i) + needle + rest);
        lemma_encode_concat(hay.take(i), needle);
        lemma_encode_concat(hay.take(i) + needle, rest);
        assert(a.subrange(at, at + b.len()) =~= b);
    }
}

/// A text stands in another by bytes exactly where it does by characters.
pub proof fn law_occurs_by_characters(hay: Seq<char>, needle: Seq<char>)
    ensures
        occurs(encode_utf8(hay), encode_utf8(needle)) <==> crate::text::has_part(hay, needle),
{
    let a = encode_utf8(hay);
    let b = encode_utf8(needle);
    if needle.len() == 0 {
        assert(a.subrange(0, 0) =~= b);
        assert(occurs_at(a, b, 0));
        assert(hay.subrange(0, 0) =~= needle);
        assert(crate::text::part_at(hay, needle, 0));
    } else {
        if occurs(a, b) {
            let at = choose|at: int| occurs_at(a, b, at);
            law_search_by_characters(hay, needle, at);
        }
        if crate::text::has_part(hay, needle) {
            let i = choose|i: int| crate::text::part_at(hay, needle, i);
            law_search_by_characters(hay, needle, encode_utf8(hay.take(i)).len() as int);
        }
    }
}

/// Where a text first stands by characters, there its bytes first stand.
pub proof fn law_first_by_characters(hay: Seq<char>, needle: Seq<char>, i: int)
    requires
        needle.len() > 0,
        crate::text::part_at(hay, needle, i),
        forall|j: int| 0 <= j < i ==> !crate::text::part_at(hay, needle, j),
    ensures
        first_at(encode_utf8(hay), encode_utf8(needle)) == Some(
            encode_utf8(hay.take(i)).len() as int,
        ),
{
    let a = encode_utf8(hay);
    let b = encode_utf8(needle);
    let at = encode_utf8(hay.take(i)).len() as int;
    law_search_by_characters(hay, needle, at);
    assert forall|q: int| q < at implies !occurs_at(a, b, q) by {
        law_search_by_characters(hay, needle, q);
        if occurs_at(a, b, q) {
            let j = choose|j: int| #[trigger]
                crate::text::part_at(hay, needle, j) && q == encode_utf8(hay.take(j)).len();
            assert(i <= j);
            assert(hay.take(j) =~= hay.take(i) + hay.subrange(i, j));
            lemma_encode_concat(hay.take(i), hay.subrange(i, j));
        }
    }
    lemma_first_at(a, b, at);
}

} // verus!
