//! Text as sequences of characters: containment of one text in another, of
//! several texts in their order, the pieces between separators, and the
//! replacement of a character.

use vstd::prelude::*;
use vstd::string::*;

verus! {

/// Whether `needle` stands in `hay` from position `at` on, character for
/// character.
pub open spec fn occurs_at(hay: Seq<char>, needle: Seq<char>, at: int) -> bool {
    0 <= at && at + needle.len() <= hay.len() && hay.subrange(at, at + needle.len()) == needle
}

/// Whether `needle` stands somewhere in `hay`. Upper and lower case differ,
/// and no character stands for another.
pub open spec fn occurs_in(hay: Seq<char>, needle: Seq<char>) -> bool {
    exists|at: int| occurs_at(hay, needle, at)
}

/// `text` with each `from` in it replaced by the characters of `to`.
pub open spec fn substituted(text: Seq<char>, from: char, to: Seq<char>) -> Seq<char>
    decreases text.len(),
{
    if text.len() == 0 {
        Seq::<char>::empty()
    } else {
        substituted(text.drop_last(), from, to) + (if text.last() == from {
            to
        } else {
            seq![text.last()]
        })
    }
}

/// The pieces into which each `sep` cuts `text`, in order. Two `sep` side by
/// side, or one at an end, give an empty piece.
pub open spec fn pieces(text: Seq<char>, sep: char) -> Seq<Seq<char>>
    decreases text.len(),
{
    if text.len() == 0 {
        seq![Seq::<char>::empty()]
    } else {
        let front = pieces(text.drop_last(), sep);
        if text.last() == sep {
            front.push(Seq::<char>::empty())
        } else {
            front.drop_last().push(front.last().push(text.last()))
        }
    }
}

/// The texts of `parts`, each as its sequence of characters.
pub open spec fn texts(parts: Seq<Vec<char>>) -> Seq<Seq<char>> {
    Seq::new(parts.len(), |i: int| parts[i]@)
}

/// Whether the texts of `parts` stand in `hay` from position `from` on, one
/// after the other in their order, with anything between them.
pub open spec fn occurs_in_order_from(hay: Seq<char>, parts: Seq<Seq<char>>, from: int) -> bool
    decreases parts.len(),
{
    if parts.len() == 0 {
        true
    } else {
        exists|at: int|
            from <= at && #[trigger] occurs_at(hay, parts[0], at) && occurs_in_order_from(
                hay,
                parts.skip(1),
                at + parts[0].len(),
            )
    }
}

/// Whether the texts of `parts` stand in `hay`, one after the other in their
/// order, with anything before, between and after them.
pub open spec fn occurs_in_order(hay: Seq<char>, parts: Seq<Seq<char>>) -> bool {
    occurs_in_order_from(hay, parts, 0)
}

/// Whether `text` holds nothing but spaces.
pub open spec fn is_blank(text: Seq<char>) -> bool {
    forall|i: int| 0 <= i < text.len() ==> text[i] == ' '
}

/// What stands in order from a position on also stands in order from every
/// earlier position on.
pub proof fn lemma_in_order_from_earlier(
    hay: Seq<char>,
    parts: Seq<Seq<char>>,
    from: int,
    earlier: int,
)
    requires
        earlier <= from,
        occurs_in_order_from(hay, parts, from),
    ensures
        occurs_in_order_from(hay, parts, earlier),
{
    if parts.len() > 0 {
        let at = choose|at: int|
            from <= at && #[trigger] occurs_at(hay, parts[0], at) && occurs_in_order_from(
                hay,
                parts.skip(1),
                at + parts[0].len(),
            );
        assert(earlier <= at && occurs_at(hay, parts[0], at));
    }
}

/// The characters of `text`, in order.
pub fn chars_of(text: &str) -> (chars: Vec<char>)
    ensures
        chars@ == text@,
{
    let n: usize = text.unicode_len();
    let mut chars: Vec<char> = Vec::new();
    let mut i: usize = 0;
    while i < n
        invariant
            i <= n,
            n == text@.len(),
            chars@ == text@.subrange(0, i as int),
        decreases n - i,
    {
        chars.push(text.get_char(i));
        assert(chars@ =~= text@.subrange(0, i + 1));
        i = i + 1;
    }
    assert(chars@ =~= text@);
    chars
}

/// Whether `needle` stands in `hay` from position `at` on. It does not
/// where `hay` ends before `needle` would.
pub fn starts_at(hay: &Vec<char>, needle: &Vec<char>, at: usize) -> (found: bool)
    ensures
        found == occurs_at(hay@, needle@, at as int),
{
    let n: usize = hay.len();
    let m: usize = needle.len();
    if m > n || at > n - m {
        return false;
    }
    let mut k: usize = 0;
    while k < m
        invariant
            k <= m,
            m == needle@.len(),
            n == hay@.len(),
            at + m <= n,
            forall|j: int| 0 <= j < k ==> hay@[at + j] == needle@[j],
        decreases m - k,
    {
        if hay[at + k] != needle[k] {
            assert(hay@.subrange(at as int, at + m)[k as int] != needle@[k as int]);
            return false;
        }
        k = k + 1;
    }
    assert(hay@.subrange(at as int, at + m) =~= needle@);
    true
}

/// The first position from `from` on at which `needle` stands in `hay`, if
/// there is one.
pub fn find_from(hay: &Vec<char>, needle: &Vec<char>, from: usize) -> (found: Option<usize>)
    ensures
        match found {
            Some(at) => {
                &&& from <= at
                &&& occurs_at(hay@, needle@, at as int)
                &&& forall|before: int| from <= before < at ==> !occurs_at(hay@, needle@, before)
            },
            None => forall|at: int| from <= at ==> !occurs_at(hay@, needle@, at),
        },
{
    let n: usize = hay.len();
    let m: usize = needle.len();
    if m > n || from > n - m {
        return None;
    }
    let last: usize = n - m;
    let mut at: usize = from;
    while at < last
        invariant
            n == hay@.len(),
            m == needle@.len(),
            last == n - m,
            from <= at <= last,
            forall|before: int| from <= before < at ==> !occurs_at(hay@, needle@, before),
        decreases last - at,
    {
        if starts_at(hay, needle, at) {
            return Some(at);
        }
        at = at + 1;
    }
    if starts_at(hay, needle, last) {
        Some(last)
    } else {
        None
    }
}

/// Whether `needle` stands somewhere in `hay`.
pub fn contains_chars(hay: &Vec<char>, needle: &Vec<char>) -> (found: bool)
    ensures
        found == occurs_in(hay@, needle@),
{
    find_from(hay, needle, 0).is_some()
}

/// The pieces into which each `sep` cuts `text`, in order.
pub fn split_chars(text: &Vec<char>, sep: char) -> (parts: Vec<Vec<char>>)
    ensures
        texts(parts@) == pieces(text@, sep),
{
    let mut parts: Vec<Vec<char>> = Vec::new();
    let mut piece: Vec<char> = Vec::new();
    let mut i: usize = 0;
    assert(texts(parts@).push(piece@) =~= pieces(text@.take(0), sep));
    while i < text.len()
        invariant
            i <= text@.len(),
            texts(parts@).push(piece@) == pieces(text@.take(i as int), sep),
        decreases text@.len() - i,
    {
        let ghost done = texts(parts@);
        let ghost open = piece@;
        proof {
            assert(text@.take(i + 1).drop_last() =~= text@.take(i as int));
            assert(done.push(open).drop_last() =~= done);
        }
        if text[i] == sep {
            parts.push(piece);
            piece = Vec::new();
            assert(texts(parts@).push(piece@) =~= done.push(open).push(Seq::<char>::empty()));
        } else {
            piece.push(text[i]);
            assert(texts(parts@).push(piece@) =~= done.push(open.push(text@[i as int])));
        }
        i = i + 1;
    }
    assert(text@.take(text@.len() as int) =~= text@);
    let ghost done = texts(parts@);
    parts.push(piece);
    assert(texts(parts@) =~= done.push(piece@));
    parts
}

/// Whether the texts of `parts` stand in `hay`, one after the other in their
/// order, with anything before, between and after them.
pub fn contains_in_order(hay: &Vec<char>, parts: &Vec<Vec<char>>) -> (found: bool)
    ensures
        found == occurs_in_order(hay@, texts(parts@)),
{
    let n: usize = hay.len();
    let mut from: usize = 0;
    let mut i: usize = 0;
    assert(texts(parts@).skip(0) =~= texts(parts@));
    while i < parts.len()
        invariant
            i <= parts@.len(),
            n == hay@.len(),
            from <= n,
            occurs_in_order(hay@, texts(parts@)) == occurs_in_order_from(
                hay@,
                texts(parts@).skip(i as int),
                from as int,
            ),
        decreases parts@.len() - i,
    {
        let ghost rest = texts(parts@).skip(i as int);
        proof {
            assert(rest[0] == parts@[i as int]@);
            assert(rest.skip(1) =~= texts(parts@).skip(i + 1));
        }
        match find_from(hay, &parts[i], from) {
            None => {
                return false;
            },
            Some(at) => {
                proof {
                    let then_from = at + parts@[i as int]@.len();
                    if occurs_in_order_from(hay@, rest, from as int) {
                        let later = choose|later: int|
                            from <= later && #[trigger] occurs_at(hay@, rest[0], later)
                                && occurs_in_order_from(
                                hay@,
                                rest.skip(1),
                                later + rest[0].len(),
                            );
                        lemma_in_order_from_earlier(
                            hay@,
                            rest.skip(1),
                            later + rest[0].len(),
                            then_from,
                        );
                    }
                }
                from = at + parts[i].len();
            },
        }
        i = i + 1;
    }
    true
}

/// Whether `text` holds nothing but spaces.
pub fn blank(text: &Vec<char>) -> (empty: bool)
    ensures
        empty == is_blank(text@),
{
    let mut i: usize = 0;
    while i < text.len()
        invariant
            i <= text@.len(),
            forall|k: int| 0 <= k < i ==> text@[k] == ' ',
        decreases text@.len() - i,
    {
        if text[i] != ' ' {
            return false;
        }
        i = i + 1;
    }
    true
}

/// Whether the text `needle` stands somewhere in the text `hay`.
pub fn contains(hay: &str, needle: &str) -> (found: bool)
    ensures
        found == occurs_in(hay@, needle@),
{
    let hay_chars = chars_of(hay);
    let needle_chars = chars_of(needle);
    contains_chars(&hay_chars, &needle_chars)
}

/// `str::replace` of std, with a single character as the pattern: the
/// result is `text` with every `from` replaced by `to`, and every other
/// character kept in its place.
#[verifier::external_body]
pub(crate) fn replace_char(text: &str, from: char, to: &str) -> (replaced: String)
    ensures
        replaced@ == substituted(text@, from, to@),
{
    text.replace(from, to)
}

} // verus!
