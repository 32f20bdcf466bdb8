//! Texts: conversion from and to UTF-8 bytes, splitting, trimming and joining,
//! and C strings.
//!
//! Positions in a text are counted in characters. What the standard library
//! decides (which bytes are text and which characters are whitespace) is
//! asked of it, through the first functions of this file.

use vstd::prelude::*;
use vstd::string::*;
use vstd::utf8::*;

verus! {

/// What `String::from_utf8_lossy` makes of a byte sequence: the text it
/// encodes, with the replacement character in place of each malformed part.
pub uninterp spec fn spec_utf8_lossy(bytes: Seq<u8>) -> Seq<char>;

/// Whether `char::is_whitespace` holds of a character: whether it has the
/// Unicode property `White_Space`.
pub uninterp spec fn spec_is_whitespace(c: char) -> bool;

/// `String::from_utf8`: succeeds exactly on well-formed UTF-8, and the string
/// then holds those bytes.
#[verifier::external_body]
pub(crate) fn string_from_utf8(bytes: Vec<u8>) -> (r: Option<String>)
    ensures
        r.is_some() == valid_utf8(bytes@),
        r.is_some() ==> r.unwrap()@ == decode_utf8(bytes@),
{
    String::from_utf8(bytes).ok()
}

/// `String::from_utf8_lossy`: never fails, and gives a text that depends on
/// the bytes alone, which is what `spec_utf8_lossy` stands for; on well-formed
/// UTF-8 it is the text that the bytes encode.
#[verifier::external_body]
pub(crate) fn string_from_utf8_lossy(bytes: &[u8]) -> (r: String)
    ensures
        r@ == spec_utf8_lossy(bytes@),
        valid_utf8(bytes@) ==> r@ == decode_utf8(bytes@),
{
    String::from_utf8_lossy(bytes).into_owned()
}

/// `char::is_whitespace`: the answer depends on the character alone, and is
/// what `spec_is_whitespace` stands for.
#[verifier::external_body]
pub(crate) fn char_is_whitespace(c: char) -> (r: bool)
    ensures
        r == spec_is_whitespace(c),
{
    c.is_whitespace()
}

/// Whether a character is a decimal digit.
pub open spec fn spec_is_digit(c: char) -> bool {
    '0' <= c <= '9'
}

/// Whether a text is made of decimal digits alone.
pub open spec fn spec_all_digits(s: Seq<char>) -> bool {
    forall|i: int| 0 <= i < s.len() ==> spec_is_digit(#[trigger] s[i])
}

/// The number that a row of decimal digits denotes; 0 for the empty row.
pub open spec fn spec_decimal(digits: Seq<char>) -> nat
    decreases digits.len(),
{
    if digits.len() == 0 {
        0
    } else {
        (spec_decimal(digits.drop_last()) * 10 + (digits.last() as u32 - '0' as u32)) as nat
    }
}

/// A text without the `+` that it may begin with.
pub open spec fn spec_unsigned(s: Seq<char>) -> Seq<char> {
    if s.len() > 0 && s[0] == '+' {
        s.skip(1)
    } else {
        s
    }
}

/// The number that a text denotes, as `str::parse::<u64>` reads it: the text
/// is one decimal digit or more, behind a `+` or not, and the number fits in
/// 64 bits.
pub open spec fn spec_parse_u64(s: Seq<char>) -> Option<u64> {
    let digits = spec_unsigned(s);
    if digits.len() > 0 && spec_all_digits(digits) && spec_decimal(digits) <= u64::MAX {
        Some(spec_decimal(digits) as u64)
    } else {
        None
    }
}

/// Where the first character that satisfies `p` stands in `s`, or the length
/// of `s` when it holds none.
pub open spec fn spec_find_by(s: Seq<char>, p: spec_fn(char) -> bool) -> int
    decreases s.len(),
{
    if s.len() == 0 || p(s[0]) {
        0
    } else {
        1 + spec_find_by(s.skip(1), p)
    }
}

/// The pieces of `s` between the characters that satisfy `p`. A text without
/// such a character, the empty one too, is a single piece.
pub open spec fn spec_split_by(s: Seq<char>, p: spec_fn(char) -> bool) -> Seq<Seq<char>>
    decreases s.len(),
{
    let i = spec_find_by(s, p);
    if 0 <= i < s.len() {
        seq![s.take(i)] + spec_split_by(s.skip(i + 1), p)
    } else {
        seq![s]
    }
}

/// What is true of the character `sep` and of no other.
pub open spec fn spec_is(sep: char) -> spec_fn(char) -> bool {
    |c: char| c == sep
}

/// The pieces of `s` between occurrences of `sep`.
pub open spec fn spec_split(s: Seq<char>, sep: char) -> Seq<Seq<char>> {
    spec_split_by(s, spec_is(sep))
}

/// The texts among `parts` that are not empty, in their order.
pub open spec fn spec_non_empty(parts: Seq<Seq<char>>) -> Seq<Seq<char>> {
    parts.filter(|part: Seq<char>| part.len() > 0)
}

/// The words of a text: its pieces between whitespace, without the empty
/// ones.
pub open spec fn spec_words(s: Seq<char>) -> Seq<Seq<char>> {
    spec_non_empty(spec_split_by(s, |c: char| spec_is_whitespace(c)))
}

/// A text without the characters at its front that satisfy `p`.
pub open spec fn spec_trim_start_by(s: Seq<char>, p: spec_fn(char) -> bool) -> Seq<char>
    decreases s.len(),
{
    if s.len() > 0 && p(s[0]) {
        spec_trim_start_by(s.skip(1), p)
    } else {
        s
    }
}

/// A text without the characters at its end that satisfy `p`.
pub open spec fn spec_trim_end_by(s: Seq<char>, p: spec_fn(char) -> bool) -> Seq<char>
    decreases s.len(),
{
    if s.len() > 0 && p(s.last()) {
        spec_trim_end_by(s.drop_last(), p)
    } else {
        s
    }
}

/// A text without the characters at its front and at its end that satisfy
/// `p`.
pub open spec fn spec_trim_by(s: Seq<char>, p: spec_fn(char) -> bool) -> Seq<char> {
    spec_trim_end_by(spec_trim_start_by(s, p), p)
}

/// A text without the whitespace at its front and at its end.
pub open spec fn spec_trim(s: Seq<char>) -> Seq<char> {
    spec_trim_by(s, |c: char| spec_is_whitespace(c))
}

/// The pieces put together again, with `sep` between neighbours.
pub open spec fn spec_join(parts: Seq<Seq<char>>, sep: char) -> Seq<char>
    decreases parts.len(),
{
    if parts.len() == 0 {
        seq![]
    } else if parts.len() == 1 {
        parts[0]
    } else {
        spec_join(parts.drop_last(), sep) + seq![sep] + parts.last()
    }
}

/// The C string for a text: its UTF-8 bytes and a terminating zero. A text
/// that holds a zero byte has none.
pub open spec fn spec_cstring(s: Seq<char>) -> Option<Seq<u8>> {
    if encode_utf8(s).contains(0u8) {
        None
    } else {
        Some(encode_utf8(s).push(0u8))
    }
}

/// Whether `bytes` is a C string: it ends in a zero and holds no other.
pub open spec fn spec_is_cstring(bytes: Seq<u8>) -> bool {
    &&& bytes.len() >= 1
    &&& bytes.last() == 0
    &&& forall|i: int| 0 <= i < bytes.len() - 1 ==> bytes[i] != 0
}

/// A stretch in which no character satisfies `p` and that ends at one that
/// does, or at the end of the text, ends where `spec_find_by` says.
pub proof fn lemma_find_by_is(s: Seq<char>, p: spec_fn(char) -> bool, n: int)
    requires
        0 <= n <= s.len(),
        forall|k: int| 0 <= k < n ==> !p(#[trigger] s[k]),
        n < s.len() ==> p(s[n]),
    ensures
        spec_find_by(s, p) == n,
    decreases s.len(),
{
    if s.len() == 0 || p(s[0]) {
        if n > 0 {
            assert(!p(s[0]));
        }
    } else {
        assert forall|k: int| 0 <= k < n - 1 implies !p(#[trigger] s.skip(1)[k]) by {
            assert(s.skip(1)[k] == s[k + 1]);
        }
        lemma_find_by_is(s.skip(1), p, n - 1);
    }
}

/// Cutting off a front of characters that satisfy `p`, up to one that does
/// not, is trimming the front.
pub proof fn lemma_trim_start_is(s: Seq<char>, p: spec_fn(char) -> bool, n: int)
    requires
        0 <= n <= s.len(),
        forall|k: int| 0 <= k < n ==> p(#[trigger] s[k]),
        n < s.len() ==> !p(s[n]),
    ensures
        spec_trim_start_by(s, p) == s.skip(n),
    decreases n,
{
    if n == 0 {
        assert(s.skip(0) =~= s);
    } else {
        assert(p(s[0]));
        assert forall|k: int| 0 <= k < n - 1 implies p(#[trigger] s.skip(1)[k]) by {
            assert(s.skip(1)[k] == s[k + 1]);
        }
        if n < s.len() {
            assert(s.skip(1)[n - 1] == s[n]);
        }
        lemma_trim_start_is(s.skip(1), p, n - 1);
        assert(s.skip(1).skip(n - 1) =~= s.skip(n));
    }
}

/// Cutting off an end of characters that satisfy `p`, back to one that does
/// not, is trimming the end.
pub proof fn lemma_trim_end_is(s: Seq<char>, p: spec_fn(char) -> bool, n: int)
    requires
        0 <= n <= s.len(),
        forall|k: int| n <= k < s.len() ==> p(#[trigger] s[k]),
        n > 0 ==> !p(s[n - 1]),
    ensures
        spec_trim_end_by(s, p) == s.take(n),
    decreases s.len() - n,
{
    if n == s.len() {
        assert(s.take(n) =~= s);
    } else {
        assert(p(s[s.len() - 1]));
        assert forall|k: int| n <= k < s.drop_last().len() implies p(
            #[trigger] s.drop_last()[k],
        ) by {
            assert(s.drop_last()[k] == s[k]);
        }
        if n > 0 {
            assert(s.drop_last()[n - 1] == s[n - 1]);
        }
        lemma_trim_end_is(s.drop_last(), p, n);
        assert(s.drop_last().take(n) =~= s.take(n));
    }
}

/// `spec_find_by` gives a position within the text, at which a character
/// that satisfies `p` stands unless it is the end.
pub proof fn lemma_find_by_bounds(s: Seq<char>, p: spec_fn(char) -> bool)
    ensures
        0 <= spec_find_by(s, p) <= s.len(),
        spec_find_by(s, p) < s.len() ==> p(s[spec_find_by(s, p)]),
    decreases s.len(),
{
    if !(s.len() == 0 || p(s[0])) {
        lemma_find_by_bounds(s.skip(1), p);
    }
}

/// Joining a text and some more texts, of which there is one at least, puts
/// the text, the separator and the others joined in a row.
pub proof fn lemma_join_front(first: Seq<char>, rest: Seq<Seq<char>>, sep: char)
    requires
        rest.len() >= 1,
    ensures
        spec_join(seq![first] + rest, sep) == first + seq![sep] + spec_join(rest, sep),
    decreases rest.len(),
{
    let all = seq![first] + rest;
    assert(all.last() == rest.last());
    if rest.len() == 1 {
        assert(all.drop_last() =~= seq![first]);
        assert(spec_join(all.drop_last(), sep) == first);
        assert(spec_join(rest, sep) == rest.last());
    } else {
        assert(all.drop_last() =~= seq![first] + rest.drop_last());
        lemma_join_front(first, rest.drop_last(), sep);
        assert(first + seq![sep] + spec_join(rest.drop_last(), sep) + seq![sep] + rest.last()
            =~= first + seq![sep] + (spec_join(rest.drop_last(), sep) + seq![sep] + rest.last()));
    }
}

/// Joining the pieces that a text was split into, with the separator it was
/// split at, gives the text back.
pub proof fn lemma_join_split(s: Seq<char>, sep: char)
    ensures
        spec_split(s, sep).len() >= 1,
        spec_join(spec_split(s, sep), sep) == s,
    decreases s.len(),
{
    let p = spec_is(sep);
    let i = spec_find_by(s, p);
    lemma_find_by_bounds(s, p);
    if 0 <= i < s.len() {
        let rest = s.skip(i + 1);
        lemma_join_split(rest, sep);
        assert(spec_split(s, sep) == seq![s.take(i)] + spec_split(rest, sep));
        lemma_join_front(s.take(i), spec_split(rest, sep), sep);
        assert(s[i] == sep);
        assert(s.take(i) + seq![sep] + rest =~= s);
    } else {
        assert(spec_split(s, sep) == seq![s]);
    }
}

/// A row of digits denotes no less than any of its fronts.
pub proof fn lemma_decimal_grows(digits: Seq<char>, n: int)
    requires
        0 <= n <= digits.len(),
        spec_all_digits(digits),
    ensures
        spec_decimal(digits.take(n)) <= spec_decimal(digits),
    decreases digits.len() - n,
{
    if n == digits.len() {
        assert(digits.take(n) =~= digits);
    } else {
        let front = digits.drop_last();
        assert forall|i: int| 0 <= i < front.len() implies spec_is_digit(#[trigger] front[i]) by {
            assert(front[i] == digits[i]);
        }
        lemma_decimal_grows(front, n);
        assert(front.take(n) =~= digits.take(n));
        assert(spec_is_digit(digits[digits.len() - 1]));
    }
}

/// The characters of a text.
pub fn chars_of(s: &str) -> (cs: Vec<char>)
    ensures
        cs@ == s@,
{
    let mut cs: Vec<char> = Vec::new();
    for c in it: s.chars()
        invariant
            it.seq() == s@,
            cs@ == s@.take(it.index()),
    {
        cs.push(c);
        assert(cs@ =~= s@.take(it.index() + 1));
    }
    assert(cs@ =~= s@);
    cs
}

/// Reads a number in decimal digits, as `str::parse::<u64>` does.
pub fn parse_u64(s: &str) -> (r: Option<u64>)
    ensures
        r == spec_parse_u64(s@),
{
    let cs: Vec<char> = chars_of(s);
    let n: usize = cs.len();
    let start: usize = if n > 0 && cs[0] == '+' {
        1
    } else {
        0
    };
    let ghost digits = spec_unsigned(s@);
    assert(digits =~= cs@.skip(start as int));
    if start == n {
        return None;
    }
    let mut value: u64 = 0;
    let mut i: usize = start;
    assert(digits.take(0) =~= Seq::<char>::empty());
    while i < n
        invariant
            start <= i <= n == cs@.len(),
            digits == cs@.skip(start as int),
            digits == spec_unsigned(s@),
            spec_all_digits(digits.take(i - start)),
            value == spec_decimal(digits.take(i - start)),
        decreases n - i,
    {
        let c: char = cs[i];
        let ghost next = digits.take(i - start + 1);
        proof {
            assert(digits[i - start] == c);
            assert(next.drop_last() =~= digits.take(i - start));
            assert(next.last() == c);
        }
        if !(c >= '0' && c <= '9') {
            assert(!spec_all_digits(digits));
            return None;
        }
        assert(spec_all_digits(next)) by {
            assert forall|k: int| 0 <= k < next.len() implies spec_is_digit(#[trigger] next[k]) by {
                if k < next.len() - 1 {
                    assert(next[k] == digits.take(i - start)[k]);
                }
            }
        }
        let digit: u64 = (c as u32 - '0' as u32) as u64;
        let grown: Option<u64> = match value.checked_mul(10) {
            Some(tens) => tens.checked_add(digit),
            None => None,
        };
        match grown {
            Some(v) => {
                value = v;
            },
            None => {
                proof {
                    assert(spec_decimal(next) > u64::MAX);
                    if spec_all_digits(digits) {
                        lemma_decimal_grows(digits, i - start + 1);
                    }
                }
                return None;
            },
        }
        i += 1;
    }
    assert(digits.take(n - start) =~= digits);
    Some(value)
}

/// The piece of a text between two positions, counted in characters.
pub fn substring(s: &str, from: usize, to: usize) -> (r: String)
    requires
        from <= to <= s@.len(),
    ensures
        r@ == s@.subrange(from as int, to as int),
{
    s.substring_char(from, to).to_owned()
}

/// The pieces of a text between the characters that `is_sep` picks out.
pub fn split_by<F: Fn(char) -> bool>(s: &str, is_sep: &F) -> (parts: Vec<String>)
    requires
        forall|c: char| call_requires(*is_sep, (c,)),
    ensures
        forall|p: spec_fn(char) -> bool|
            (forall|c: char, r: bool| call_ensures(*is_sep, (c,), r) ==> r == p(c))
                ==> parts.deep_view() == #[trigger] spec_split_by(s@, p),
{
    let cs: Vec<char> = chars_of(s);
    let n: usize = cs.len();
    let mut parts: Vec<String> = Vec::new();
    let mut start: usize = 0;
    let mut i: usize = 0;
    let ghost mut seps: Seq<bool> = Seq::empty();
    proof {
        assert(s@.skip(0) =~= s@);
        assert forall|p: spec_fn(char) -> bool| #[trigger]
            spec_split_by(s@, p) == parts.deep_view() + spec_split_by(s@.skip(0), p) by {
            assert(parts.deep_view() + spec_split_by(s@, p) =~= spec_split_by(s@, p));
        }
    }
    while i < n
        invariant
            n == cs@.len(),
            cs@ == s@,
            start <= i <= n,
            seps.len() == i,
            forall|c: char| call_requires(*is_sep, (c,)),
            forall|k: int| 0 <= k < i ==> call_ensures(*is_sep, (cs@[k],), #[trigger] seps[k]),
            forall|k: int| start <= k < i ==> !seps[k],
            start > 0 ==> seps[start - 1],
            parts@.len() <= i,
            forall|p: spec_fn(char) -> bool|
                (forall|c: char, r: bool| call_ensures(*is_sep, (c,), r) ==> r == p(c))
                    ==> #[trigger] spec_split_by(s@, p) == parts.deep_view() + spec_split_by(
                    s@.skip(start as int),
                    p,
                ),
        decreases n - i,
    {
        let sep: bool = is_sep(cs[i]);
        proof {
            seps = seps.push(sep);
        }
        if sep {
            let piece: String = substring(s, start, i);
            let ghost before = parts.deep_view();
            parts.push(piece);
            proof {
                assert(parts.deep_view() =~= before.push(piece@));
                assert forall|p: spec_fn(char) -> bool|
                    (forall|c: char, r: bool| call_ensures(*is_sep, (c,), r) ==> r == p(c))
                        implies #[trigger] spec_split_by(s@, p) == parts.deep_view()
                        + spec_split_by(s@.skip(i + 1), p) by {
                    let rest = s@.skip(start as int);
                    assert forall|k: int| 0 <= k < i - start implies !p(#[trigger] rest[k]) by {
                        assert(rest[k] == cs@[start + k]);
                        assert(call_ensures(*is_sep, (cs@[start + k],), seps[start + k]));
                    }
                    assert(rest[i - start] == cs@[i as int]);
                    assert(call_ensures(*is_sep, (cs@[i as int],), seps[i as int]));
                    lemma_find_by_is(rest, p, i - start);
                    assert(rest.take(i - start) =~= s@.subrange(start as int, i as int));
                    assert(rest.skip(i - start + 1) =~= s@.skip(i + 1));
                    assert(before.push(piece@) + spec_split_by(s@.skip(i + 1), p) =~= before
                        + spec_split_by(rest, p));
                }
            }
            start = i + 1;
        }
        i += 1;
    }
    let piece: String = substring(s, start, n);
    let ghost before = parts.deep_view();
    parts.push(piece);
    proof {
        assert(parts.deep_view() =~= before.push(piece@));
        assert forall|p: spec_fn(char) -> bool|
            (forall|c: char, r: bool| call_ensures(*is_sep, (c,), r) ==> r == p(c))
                implies parts.deep_view() == #[trigger] spec_split_by(s@, p) by {
            let rest = s@.skip(start as int);
            assert forall|k: int| 0 <= k < n - start implies !p(#[trigger] rest[k]) by {
                assert(rest[k] == cs@[start + k]);
                assert(call_ensures(*is_sep, (cs@[start + k],), seps[start + k]));
            }
            lemma_find_by_is(rest, p, n - start);
            assert(rest =~= s@.subrange(start as int, n as int));
            assert(before.push(piece@) =~= before + spec_split_by(rest, p));
        }
    }
    parts
}

/// Whether a character is the dot.
fn is_dot(c: char) -> (r: bool)
    ensures
        r == (c == '.'),
{
    c == '.'
}

/// Splits a dotted name into its labels, as `str::split` does on `"."`.
pub fn split_dots(s: &str) -> (parts: Vec<String>)
    ensures
        parts.deep_view() == spec_split(s@, '.'),
{
    split_by(s, &is_dot)
}

/// The texts among `parts` that are not empty, in their order.
pub fn non_empty(parts: Vec<String>) -> (r: Vec<String>)
    ensures
        r.deep_view() == spec_non_empty(parts.deep_view()),
{
    let ghost all = parts.deep_view();
    let ghost keep = |part: Seq<char>| part.len() > 0;
    let mut r: Vec<String> = Vec::new();
    let mut i: usize = 0;
    proof {
        reveal(Seq::filter);
        assert(all.take(0).filter(keep) =~= Seq::<Seq<char>>::empty());
    }
    while i < parts.len()
        invariant
            i <= parts@.len(),
            all == parts.deep_view(),
            keep == |part: Seq<char>| part.len() > 0,
            r.deep_view() == all.take(i as int).filter(keep),
        decreases parts@.len() - i,
    {
        let part: &String = &parts[i];
        let ghost before = r.deep_view();
        proof {
            assert(all.take(i + 1) =~= all.take(i as int).push(part@));
            all.take(i as int).lemma_filter_push(part@, keep);
        }
        if part.as_str().unicode_len() > 0 {
            r.push(part.clone());
            assert(r.deep_view() =~= before.push(part@));
        }
        i += 1;
    }
    assert(all.take(i as int) =~= all);
    r
}

/// The words of a text: its pieces between whitespace, without the empty
/// ones.
pub fn words(s: &str) -> (r: Vec<String>)
    ensures
        r.deep_view() == spec_words(s@),
{
    let parts: Vec<String> = split_by(s, &char_is_whitespace);
    assert(parts.deep_view() == spec_split_by(s@, |c: char| spec_is_whitespace(c)));
    non_empty(parts)
}

/// A text without the characters at its front and at its end that `is_space`
/// picks out.
pub fn trim_by<F: Fn(char) -> bool>(s: &str, is_space: &F) -> (r: String)
    requires
        forall|c: char| call_requires(*is_space, (c,)),
    ensures
        forall|p: spec_fn(char) -> bool|
            (forall|c: char, r: bool| call_ensures(*is_space, (c,), r) ==> r == p(c)) ==> r@
                == #[trigger] spec_trim_by(s@, p),
{
    let cs: Vec<char> = chars_of(s);
    let n: usize = cs.len();
    let ghost mut front: Seq<bool> = Seq::empty();
    let mut from: usize = 0;
    loop
        invariant_except_break
            front.len() == from,
            forall|k: int| 0 <= k < from ==> #[trigger] front[k],
        invariant
            from <= n == cs@.len(),
            forall|c: char| call_requires(*is_space, (c,)),
            forall|k: int|
                0 <= k < front.len() ==> k < n && call_ensures(
                    *is_space,
                    (cs@[k],),
                    #[trigger] front[k],
                ),
        ensures
            forall|k: int| 0 <= k < from ==> #[trigger] front[k],
            front.len() >= from,
            from < n ==> front.len() == from + 1 && !front[from as int],
        decreases n - from,
    {
        if from >= n {
            break ;
        }
        let space: bool = is_space(cs[from]);
        proof {
            front = front.push(space);
        }
        if !space {
            break ;
        }
        from += 1;
    }
    let ghost mut back: Seq<bool> = Seq::empty();
    let mut to: usize = n;
    loop
        invariant_except_break
            back.len() == n - to,
            forall|k: int| 0 <= k < n - to ==> #[trigger] back[k],
        invariant
            from <= to <= n == cs@.len(),
            forall|c: char| call_requires(*is_space, (c,)),
            forall|k: int|
                0 <= k < back.len() ==> k < n && call_ensures(
                    *is_space,
                    (cs@[n - 1 - k],),
                    #[trigger] back[k],
                ),
        ensures
            forall|k: int| 0 <= k < n - to ==> #[trigger] back[k],
            back.len() >= n - to,
            to > from ==> back.len() == n - to + 1 && !back[n - to],
        decreases to,
    {
        if to <= from {
            break ;
        }
        let space: bool = is_space(cs[to - 1]);
        proof {
            back = back.push(space);
        }
        if !space {
            break ;
        }
        to -= 1;
    }
    let r: String = substring(s, from, to);
    proof {
        assert forall|p: spec_fn(char) -> bool|
            (forall|c: char, r: bool| call_ensures(*is_space, (c,), r) ==> r == p(c)) implies r@
            == #[trigger] spec_trim_by(s@, p) by {
            assert forall|k: int| 0 <= k < from implies p(#[trigger] cs@[k]) by {
                assert(front[k]);
            }
            if from < n {
                assert(!front[from as int]);
                assert(!p(cs@[from as int]));
            }
            lemma_trim_start_is(cs@, p, from as int);
            let rest = cs@.skip(from as int);
            assert forall|k: int| to - from <= k < rest.len() implies p(#[trigger] rest[k]) by {
                assert(rest[k] == cs@[from + k]);
                assert(back[n - 1 - (from + k)]);
            }
            if to > from {
                assert(rest[to - from - 1] == cs@[to - 1]);
                assert(!back[n - to]);
                assert(!p(cs@[to - 1]));
            }
            lemma_trim_end_is(rest, p, to - from);
            assert(rest.take(to - from) =~= cs@.subrange(from as int, to as int));
        }
    }
    r
}

/// A text without the whitespace at its front and at its end.
pub fn trim(s: &str) -> (r: String)
    ensures
        r@ == spec_trim(s@),
{
    trim_by(s, &char_is_whitespace)
}

/// Joins labels into a dotted name, as `join` does with `"."`.
pub fn join_dots(parts: &Vec<String>) -> (s: String)
    ensures
        s@ == spec_join(parts.deep_view(), '.'),
{
    let mut s: String = String::new();
    let mut i: usize = 0;
    proof {
        reveal_strlit(".");
    }
    while i < parts.len()
        invariant
            i <= parts.len(),
            "."@ == seq!['.'],
            s@ == spec_join(parts.deep_view().take(i as int), '.'),
        decreases parts.len() - i,
    {
        let ghost done = parts.deep_view().take(i as int);
        let ghost next = parts.deep_view().take(i + 1);
        proof {
            assert(next.drop_last() =~= done);
            assert(next.last() == parts[i as int]@);
        }
        if i > 0 {
            s.append(".");
        }
        s.append(parts[i].as_str());
        proof {
            if i == 0 {
                assert(s@ =~= parts[0]@);
            } else {
                assert(s@ =~= spec_join(done, '.') + seq!['.'] + parts[i as int]@);
            }
        }
        i += 1;
    }
    assert(parts.deep_view().take(i as int) =~= parts.deep_view());
    s
}

/// Makes the C string for a text, or `None` where the text holds a zero byte.
pub fn cstring_new(s: &str) -> (r: Option<Vec<u8>>)
    ensures
        r.deep_view() == spec_cstring(s@),
        r.is_some() ==> spec_is_cstring(r.unwrap()@),
{
    let bytes: &[u8] = s.as_bytes();
    let mut out: Vec<u8> = Vec::new();
    let mut i: usize = 0;
    while i < bytes.len()
        invariant
            i <= bytes@.len(),
            bytes@ == encode_utf8(s@),
            out@ == bytes@.take(i as int),
            forall|k: int| 0 <= k < i ==> bytes@[k] != 0,
        decreases bytes@.len() - i,
    {
        if bytes[i] == 0 {
            return None;
        }
        out.push(bytes[i]);
        assert(out@ =~= bytes@.take(i + 1));
        i += 1;
    }
    assert(bytes@.take(i as int) =~= bytes@);
    out.push(0);
    assert(out.deep_view() =~= out@);
    Some(out)
}

} // verus!
