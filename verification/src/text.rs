//! Character-level helpers on strings: conversion between strings and
//! character vectors, comparison, literal search, filtering and splitting.

use vstd::prelude::*;
use vstd::utf8::encode_utf8;
use vstd::utf8::encode_utf8_decode_utf8;

verus! {

/// `String::push` appends one character to the end of the string.
pub assume_specification[ String::push ](s: &mut String, c: char)
    ensures
        final(s)@ == old(s)@.push(c),
;

/// The characters of `s`, in order.
pub fn chars_of(s: &str) -> (v: Vec<char>)
    ensures
        v@ == s@,
{
    let mut v: Vec<char> = Vec::new();
    for c in it: s.chars()
        invariant
            it.seq() == s@,
            v@ == s@.take(it.index() as int),
    {
        v.push(c);
    }
    v
}

/// The string made of the characters `chars[from..to]`.
pub fn string_of(chars: &Vec<char>, from: usize, to: usize) -> (s: String)
    requires
        from <= to <= chars.len(),
    ensures
        s@ == chars@.subrange(from as int, to as int),
{
    let mut s = String::new();
    let mut i: usize = from;
    while i < to
        invariant
            from <= i <= to <= chars.len(),
            s@ == chars@.subrange(from as int, i as int),
        decreases to - i,
    {
        s.push(chars[i]);
        i += 1;
    }
    s
}

/// Whether two byte slices hold the same bytes.
pub fn same_bytes(a: &[u8], b: &[u8]) -> (same: bool)
    ensures
        same == (a@ == b@),
{
    if a.len() != b.len() {
        return false;
    }
    let mut index: usize = 0;
    while index < a.len()
        invariant
            a.len() == b.len(),
            index <= a.len(),
            forall|k: int| 0 <= k < index ==> a@[k] == b@[k],
        decreases a.len() - index,
    {
        if a[index] != b[index] {
            return false;
        }
        index += 1;
    }
    assert(a@ =~= b@);
    true
}

/// Two character sequences with the same UTF-8 encoding are the same sequence.
pub proof fn lemma_encoding_is_injective(a: Seq<char>, b: Seq<char>)
    requires
        encode_utf8(a) == encode_utf8(b),
    ensures
        a == b,
{
    encode_utf8_decode_utf8(a);
    encode_utf8_decode_utf8(b);
}

/// Whether two string slices hold the same text, byte for byte.
pub fn same_text(a: &str, b: &str) -> (same: bool)
    ensures
        same == (a@ == b@),
{
    let same = same_bytes(a.as_bytes(), b.as_bytes());
    proof {
        if same {
            lemma_encoding_is_injective(a@, b@);
        }
    }
    same
}

/// Where `needle` stands in `text` at offset `at`.
pub open spec fn occurs_at(text: Seq<char>, needle: Seq<char>, at: int) -> bool {
    &&& 0 <= at
    &&& at + needle.len() <= text.len()
    &&& text.subrange(at, at + needle.len()) == needle
}

/// The offsets of the occurrences of `needle` in `text` at or after `from`,
/// found from left to right, each search resuming behind the occurrence
/// found last, so that no two of them overlap.
pub open spec fn occurrences(text: Seq<char>, needle: Seq<char>, from: int) -> Seq<int>
    decreases text.len() - from,
{
    if from < 0 || needle.len() == 0 || from + needle.len() > text.len() {
        Seq::empty()
    } else if occurs_at(text, needle, from) {
        seq![from] + occurrences(text, needle, from + needle.len())
    } else {
        occurrences(text, needle, from + 1)
    }
}

/// Whether `needle` stands in `text` at offset `at`.
pub fn matches_at(text: &Vec<char>, needle: &Vec<char>, at: usize) -> (r: bool)
    ensures
        r == occurs_at(text@, needle@, at as int),
{
    if needle.len() > text.len() || at > text.len() - needle.len() {
        return false;
    }
    let mut k: usize = 0;
    while k < needle.len()
        invariant
            at + needle.len() <= text.len(),
            k <= needle.len(),
            forall|j: int| 0 <= j < k ==> text@[at + j] == needle@[j],
        decreases needle.len() - k,
    {
        if text[at + k] != needle[k] {
            return false;
        }
        k += 1;
    }
    assert(text@.subrange(at as int, at + needle.len()) =~= needle@);
    true
}

/// The offsets of the occurrences of `needle` in `text`, found from left to
/// right, no two of them overlapping. An empty needle has none.
pub fn find_all(text: &Vec<char>, needle: &Vec<char>) -> (found: Vec<usize>)
    ensures
        found@.map_values(|o: usize| o as int) == occurrences(text@, needle@, 0),
        forall|i: int| 0 <= i < found.len() ==> found[i] + needle.len() <= text.len(),
{
    let mut found: Vec<usize> = Vec::new();
    let mut at: usize = 0;
    if needle.len() == 0 {
        return found;
    }
    while at <= text.len() && needle.len() <= text.len() - at
        invariant
            needle.len() > 0,
            found@.map_values(|o: usize| o as int) + occurrences(text@, needle@, at as int)
                == occurrences(text@, needle@, 0),
            forall|i: int| 0 <= i < found.len() ==> found[i] + needle.len() <= text.len(),
        decreases text.len() - at,
    {
        if matches_at(text, needle, at) {
            found.push(at);
            at += needle.len();
        } else {
            at += 1;
        }
    }
    found
}

/// The needle holds its first character nowhere else.
pub open spec fn starts_apart(needle: Seq<char>) -> bool {
    &&& needle.len() > 0
    &&& forall|k: int| 1 <= k < needle.len() ==> #[trigger] needle[k] != needle[0]
}

/// The offsets, each moved by `by`.
pub open spec fn shifted(offsets: Seq<int>, by: int) -> Seq<int> {
    offsets.map_values(|o: int| o + by)
}

/// A needle that stands nowhere at or behind `from` has no occurrences there.
pub proof fn lemma_no_occurrences(text: Seq<char>, needle: Seq<char>, from: int)
    requires
        forall|p: int| from <= p ==> !occurs_at(text, needle, p),
    ensures
        occurrences(text, needle, from) == Seq::<int>::empty(),
    decreases text.len() - from,
{
    if !(from < 0 || needle.len() == 0 || from + needle.len() > text.len()) {
        lemma_no_occurrences(text, needle, from + 1);
    }
}

/// Behind a head, the occurrences in a joined text are those in its tail,
/// moved by the length of the head.
pub proof fn lemma_occurrences_behind(
    head: Seq<char>,
    tail: Seq<char>,
    needle: Seq<char>,
    from: int,
)
    requires
        0 <= from,
    ensures
        occurrences(head + tail, needle, head.len() + from) == shifted(
            occurrences(tail, needle, from),
            head.len() as int,
        ),
    decreases tail.len() - from,
{
    let text = head + tail;
    let n = needle.len() as int;
    let h = head.len() as int;
    if n > 0 && from + n <= tail.len() {
        assert(text.subrange(h + from, h + from + n) =~= tail.subrange(from, from + n));
        if occurs_at(tail, needle, from) {
            lemma_occurrences_behind(head, tail, needle, from + n);
        } else {
            lemma_occurrences_behind(head, tail, needle, from + 1);
        }
    }
}

/// Where a tail starts with the first character of a needle that holds this
/// character nowhere else, no occurrence reaches from the head into the
/// tail: the occurrences in the joined text are those in the head and then
/// those in the tail.
pub proof fn lemma_occurrences_of_joined(
    head: Seq<char>,
    tail: Seq<char>,
    needle: Seq<char>,
    from: int,
)
    requires
        starts_apart(needle),
        tail.len() == 0 || tail[0] == needle[0],
        0 <= from <= head.len(),
    ensures
        occurrences(head + tail, needle, from) == occurrences(head, needle, from) + shifted(
            occurrences(tail, needle, 0),
            head.len() as int,
        ),
    decreases head.len() - from,
{
    let text = head + tail;
    let n = needle.len() as int;
    let h = head.len() as int;
    if from == h {
        lemma_occurrences_behind(head, tail, needle, 0);
    } else if from + n > text.len() {
    } else if from + n <= h {
        assert(text.subrange(from, from + n) =~= head.subrange(from, from + n));
        if occurs_at(head, needle, from) {
            lemma_occurrences_of_joined(head, tail, needle, from + n);
        } else {
            lemma_occurrences_of_joined(head, tail, needle, from + 1);
        }
    } else {
        if occurs_at(text, needle, from) {
            assert(text.subrange(from, from + n)[h - from] == text[h]);
        }
        lemma_occurrences_of_joined(head, tail, needle, from + 1);
    }
}

/// `text` without the character `dropped`, wherever it stands.
pub open spec fn without_char(text: Seq<char>, dropped: char) -> Seq<char> {
    text.filter(|c: char| c != dropped)
}

/// Taking one more character of `text` adds it to the filtered text, unless
/// it is the one to drop.
pub proof fn lemma_without_char_step(text: Seq<char>, dropped: char, i: int)
    requires
        0 <= i < text.len(),
    ensures
        without_char(text.take(i + 1), dropped) == if text[i] == dropped {
            without_char(text.take(i), dropped)
        } else {
            without_char(text.take(i), dropped).push(text[i])
        },
{
    reveal(Seq::filter);
    assert(text.take(i + 1).drop_last() =~= text.take(i));
}

/// The characters of `chars` but for `dropped`, in order.
pub fn remove_char(chars: &Vec<char>, dropped: char) -> (kept: Vec<char>)
    ensures
        kept@ == without_char(chars@, dropped),
{
    let mut kept: Vec<char> = Vec::new();
    let mut i: usize = 0;
    while i < chars.len()
        invariant
            i <= chars.len(),
            kept@ == without_char(chars@.take(i as int), dropped),
        decreases chars.len() - i,
    {
        proof {
            lemma_without_char_step(chars@, dropped, i as int);
        }
        if chars[i] != dropped {
            kept.push(chars[i]);
        }
        i += 1;
    }
    assert(chars@.take(chars.len() as int) =~= chars@);
    kept
}

/// The pieces into which the separator cuts `text`: one more than it holds
/// separators, an empty piece wherever two separators meet or one stands at
/// an end of the text.
pub open spec fn split_on(text: Seq<char>, separator: char) -> Seq<Seq<char>>
    decreases text.len(),
{
    if text.len() == 0 {
        seq![Seq::empty()]
    } else {
        let before = split_on(text.drop_last(), separator);
        if text.last() == separator {
            before.push(Seq::empty())
        } else {
            before.drop_last().push(before.last().push(text.last()))
        }
    }
}

/// The pieces into which the separator cuts `chars`, in order.
pub fn split(chars: &Vec<char>, separator: char) -> (pieces: Vec<String>)
    ensures
        pieces.deep_view() == split_on(chars@, separator),
{
    let mut pieces: Vec<String> = Vec::new();
    let mut piece = String::new();
    let mut i: usize = 0;
    while i < chars.len()
        invariant
            i <= chars.len(),
            pieces.deep_view().push(piece@) == split_on(chars@.take(i as int), separator),
        decreases chars.len() - i,
    {
        proof {
            assert(chars@.take(i + 1).drop_last() =~= chars@.take(i as int));
        }
        if chars[i] == separator {
            pieces.push(piece);
            piece = String::new();
        } else {
            piece.push(chars[i]);
        }
        i += 1;
    }
    assert(chars@.take(chars.len() as int) =~= chars@);
    pieces.push(piece);
    pieces
}

} // verus!
