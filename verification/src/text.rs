//! Character sequences: the mathematical vocabulary in which the contracts of
//! this crate speak about text, and verified executable counterparts that work
//! on slices of `char`.

use vstd::prelude::*;
use vstd::slice::slice_subrange;

verus! {

/// `String::push` appends one character at the end, as its documentation says.
pub assume_specification[ std::string::String::push ](s: &mut std::string::String, c: char)
    ensures
        final(s)@ == old(s)@.push(c),
;

/// `p` stands at the start of `s`.
pub open spec fn has_prefix(s: Seq<char>, p: Seq<char>) -> bool {
    p.len() <= s.len() && s.subrange(0, p.len() as int) == p
}

/// `p` stands at the end of `s`.
pub open spec fn has_suffix(s: Seq<char>, p: Seq<char>) -> bool {
    p.len() <= s.len() && s.subrange(s.len() - p.len(), s.len() as int) == p
}

/// The position of the leftmost occurrence of `p` in `s`, or `None`.
pub open spec fn find(s: Seq<char>, p: Seq<char>) -> Option<int>
    decreases s.len(),
{
    if has_prefix(s, p) {
        Some(0int)
    } else if s.len() == 0 {
        None
    } else {
        match find(s.drop_first(), p) {
            Some(i) => Some(i + 1),
            None => None,
        }
    }
}

/// The pieces of `s` between the successive, non-overlapping occurrences of
/// the separator `sep`, taken from the left. There is always at least one
/// piece; a separator at either end gives an empty piece there.
pub open spec fn split(s: Seq<char>, sep: Seq<char>) -> Seq<Seq<char>>
    recommends
        sep.len() > 0,
    decreases s.len(),
{
    match find(s, sep) {
        Some(i) => if sep.len() > 0 && 0 <= i && i + sep.len() <= s.len() {
            seq![s.subrange(0, i)] + split(s.subrange(i + sep.len(), s.len() as int), sep)
        } else {
            seq![s]
        },
        None => seq![s],
    }
}

/// The number of non-overlapping occurrences of `p` in `s`, counted from the
/// left.
pub open spec fn count(s: Seq<char>, p: Seq<char>) -> nat
    recommends
        p.len() > 0,
    decreases s.len(),
{
    (split(s, p).len() - 1) as nat
}

/// `s` without the run of `c` at its start.
pub open spec fn trim_start_matches(s: Seq<char>, c: char) -> Seq<char>
    decreases s.len(),
{
    if s.len() > 0 && s[0] == c {
        trim_start_matches(s.drop_first(), c)
    } else {
        s
    }
}

/// `s` without the run of `c` at its end.
pub open spec fn trim_end_matches(s: Seq<char>, c: char) -> Seq<char>
    decreases s.len(),
{
    if s.len() > 0 && s.last() == c {
        trim_end_matches(s.drop_last(), c)
    } else {
        s
    }
}

/// `s` without the runs of `c` at both ends.
pub open spec fn trim_matches(s: Seq<char>, c: char) -> Seq<char> {
    trim_end_matches(trim_start_matches(s, c), c)
}

/// The order of texts: character by character from the left, by the
/// numbers of the characters, a text coming before every longer text that
/// starts with it.
pub open spec fn text_le(a: Seq<char>, b: Seq<char>) -> bool
    decreases a.len(),
{
    if a.len() == 0 {
        true
    } else if b.len() == 0 {
        false
    } else if a[0] != b[0] {
        (a[0] as u32) < (b[0] as u32)
    } else {
        text_le(a.drop_first(), b.drop_first())
    }
}

/// `a` comes before `b` in the order of texts and is not `b`.
pub open spec fn text_lt(a: Seq<char>, b: Seq<char>) -> bool {
    text_le(a, b) && a != b
}

/// Whether a character is white space: what `char::is_whitespace` of the
/// standard library returns for it.
pub uninterp spec fn is_whitespace(c: char) -> bool;

/// `s` without the white space at its start.
pub open spec fn trim_start(s: Seq<char>) -> Seq<char>
    decreases s.len(),
{
    if s.len() > 0 && is_whitespace(s[0]) {
        trim_start(s.drop_first())
    } else {
        s
    }
}

/// `s` without the white space at its end.
pub open spec fn trim_end(s: Seq<char>) -> Seq<char>
    decreases s.len(),
{
    if s.len() > 0 && is_whitespace(s.last()) {
        trim_end(s.drop_last())
    } else {
        s
    }
}

/// `s` without the white space at both ends.
pub open spec fn trim(s: Seq<char>) -> Seq<char> {
    trim_end(trim_start(s))
}

/// The first position, from `from` on, of a character that is no white
/// space; the length of `s` where there is none.
pub open spec fn word_start(s: Seq<char>, from: int) -> int
    decreases s.len() - from,
{
    if from >= s.len() {
        s.len() as int
    } else if from >= 0 && !is_whitespace(s[from]) {
        from
    } else {
        word_start(s, from + 1)
    }
}

/// The first position, from `from` on, of a white space character; the
/// length of `s` where there is none.
pub open spec fn word_end(s: Seq<char>, from: int) -> int
    decreases s.len() - from,
{
    if from >= s.len() {
        s.len() as int
    } else if from >= 0 && is_whitespace(s[from]) {
        from
    } else {
        word_end(s, from + 1)
    }
}

/// Where a word starts and ends: not before the position from which it is
/// looked for, and not beyond the text; and a word has a character.
pub proof fn lemma_word_bounds(s: Seq<char>, from: int)
    requires
        0 <= from <= s.len(),
    ensures
        from <= word_start(s, from) <= s.len(),
        from <= word_end(s, from) <= s.len(),
        from < s.len() && !is_whitespace(s[from]) ==> word_end(s, from) > from,
        word_start(s, from) < s.len() ==> !is_whitespace(s[word_start(s, from)]),
    decreases s.len() - from,
{
    if from < s.len() {
        lemma_word_bounds(s, from + 1);
    }
}

/// The words of `s` from the position `from` on: the maximal runs of
/// characters that are no white space, in order.
pub open spec fn words_from(s: Seq<char>, from: int) -> Seq<Seq<char>>
    decreases s.len() - from,
{
    let a = word_start(s, from);
    let b = word_end(s, a);
    if from < 0 || from > s.len() || a >= s.len() {
        Seq::empty()
    } else {
        proof {
            lemma_word_bounds(s, from);
            lemma_word_bounds(s, a);
        }
        seq![s.subrange(a, b)] + words_from(s, b)
    }
}

/// The words of `s`: what stands between its runs of white space.
pub open spec fn words(s: Seq<char>) -> Seq<Seq<char>> {
    words_from(s, 0)
}

/// The character of a decimal digit.
pub open spec fn digit(d: nat) -> char
    recommends
        d < 10,
{
    seq!['0', '1', '2', '3', '4', '5', '6', '7', '8', '9'][d as int]
}

/// The decimal numeral of `n`, without leading zeros.
pub open spec fn decimal(n: nat) -> Seq<char>
    decreases n,
{
    if n < 10 {
        seq![digit(n)]
    } else {
        decimal(n / 10).push(digit(n % 10))
    }
}

/// The concatenation of the pieces, each followed by `sep`.
pub open spec fn join_terminated(parts: Seq<Seq<char>>, sep: Seq<char>) -> Seq<char>
    decreases parts.len(),
{
    if parts.len() == 0 {
        Seq::empty()
    } else {
        parts[0] + sep + join_terminated(parts.drop_first(), sep)
    }
}

/// The concatenation of the pieces with `sep` between neighbours.
pub open spec fn join(parts: Seq<Seq<char>>, sep: Seq<char>) -> Seq<char>
    decreases parts.len(),
{
    if parts.len() == 0 {
        Seq::empty()
    } else if parts.len() == 1 {
        parts[0]
    } else {
        join(parts.drop_last(), sep) + sep + parts.last()
    }
}

/// The views of the strings of a vector, in order.
pub open spec fn views(v: Seq<String>) -> Seq<Seq<char>> {
    Seq::new(v.len(), |i: int| v[i]@)
}

/// The views of the character vectors of a vector, in order.
pub open spec fn char_views(v: Seq<Vec<char>>) -> Seq<Seq<char>> {
    Seq::new(v.len(), |i: int| v[i]@)
}

/// Calls `char::is_whitespace`. The contract gives its result the name
/// `is_whitespace`: the standard library documents it as a property of the
/// character alone.
#[verifier::external_body]
pub(crate) fn char_is_whitespace(c: char) -> (b: bool)
    ensures
        b == is_whitespace(c),
{
    c.is_whitespace()
}

/// The characters of a string slice.
pub fn to_chars(s: &str) -> (v: Vec<char>)
    ensures
        v@ == s@,
{
    broadcast use vstd::string::group_string_axioms;

    let mut v: Vec<char> = Vec::new();
    for c in it: s.chars()
        invariant
            it.seq() == s@,
            v@ == it.seq().take(it.index()),
    {
        v.push(c);
    }
    assert(v@ == s@);
    v
}

/// The string made of the given characters.
pub fn from_chars(v: &[char]) -> (s: String)
    ensures
        s@ == v@,
{
    let mut s = String::new();
    let mut i: usize = 0;
    while i < v.len()
        invariant
            i <= v.len(),
            s@ == v@.take(i as int),
        decreases v.len() - i,
    {
        s.push(v[i]);
        i += 1;
    }
    assert(v@.take(v.len() as int) == v@);
    s
}

/// Whether two character slices hold the same text.
pub fn chars_eq(a: &[char], b: &[char]) -> (r: bool)
    ensures
        r == (a@ == b@),
{
    if a.len() != b.len() {
        return false;
    }
    let mut i: usize = 0;
    while i < a.len()
        invariant
            i <= a.len(),
            a.len() == b.len(),
            a@.take(i as int) == b@.take(i as int),
        decreases a.len() - i,
    {
        if a[i] != b[i] {
            return false;
        }
        assert(a@.take(i + 1) == a@.take(i as int).push(a@[i as int]));
        assert(b@.take(i + 1) == b@.take(i as int).push(b@[i as int]));
        i += 1;
    }
    assert(a@.take(a.len() as int) == a@);
    assert(b@.take(b.len() as int) == b@);
    true
}

/// Whether `s` starts with `p`.
pub fn starts_with(s: &[char], p: &[char]) -> (r: bool)
    ensures
        r == has_prefix(s@, p@),
{
    if p.len() > s.len() {
        return false;
    }
    chars_eq(slice_subrange(s, 0, p.len()), p)
}

/// Whether `s` ends with `p`.
pub fn ends_with(s: &[char], p: &[char]) -> (r: bool)
    ensures
        r == has_suffix(s@, p@),
{
    if p.len() > s.len() {
        return false;
    }
    chars_eq(slice_subrange(s, s.len() - p.len(), s.len()), p)
}

/// `find` shifted by `by` positions: the position in the longer sequence of a
/// match found after skipping its first `by` characters.
pub open spec fn shifted(r: Option<int>, by: int) -> Option<int> {
    match r {
        Some(i) => Some(i + by),
        None => None,
    }
}

/// A pattern longer than the text does not occur in it.
pub proof fn lemma_find_short(s: Seq<char>, p: Seq<char>)
    requires
        s.len() < p.len(),
    ensures
        find(s, p) is None,
    decreases s.len(),
{
    if s.len() > 0 {
        lemma_find_short(s.drop_first(), p);
    }
}

/// Where the pattern starts at none of the first `i` positions, the leftmost
/// occurrence is the leftmost one after them.
pub proof fn lemma_find_skip(s: Seq<char>, p: Seq<char>, i: int)
    requires
        0 <= i <= s.len(),
        forall|k: int| 0 <= k < i ==> !has_prefix(#[trigger] s.skip(k), p),
    ensures
        find(s, p) == shifted(find(s.skip(i), p), i),
    decreases i,
{
    if i == 0 {
        assert(s.skip(0) == s);
    } else {
        assert(s.skip(0) == s);
        assert(!has_prefix(s, p));
        let t = s.drop_first();
        assert forall|k: int| 0 <= k < i - 1 implies !has_prefix(#[trigger] t.skip(k), p) by {
            assert(t.skip(k) == s.skip(k + 1));
        }
        lemma_find_skip(t, p, i - 1);
        assert(t.skip(i - 1) == s.skip(i));
    }
}

/// The position of the leftmost occurrence of `p` in `s`.
pub fn find_in(s: &[char], p: &[char]) -> (r: Option<usize>)
    ensures
        r is Some <==> find(s@, p@) is Some,
        r matches Some(i) ==> find(s@, p@) == Some(i as int) && i + p@.len() <= s@.len(),
{
    if p.len() == 0 {
        assert(s@.subrange(0, 0) == p@);
        return Some(0);
    }
    if p.len() > s.len() {
        proof {
            lemma_find_short(s@, p@);
        }
        return None;
    }
    let last: usize = s.len() - p.len();
    let mut i: usize = 0;
    while i <= last
        invariant
            0 < p.len() <= s.len(),
            last == s.len() - p.len(),
            i <= last + 1,
            forall|k: int| 0 <= k < i ==> !has_prefix(#[trigger] s@.skip(k), p@),
        decreases last + 1 - i,
    {
        let rest = slice_subrange(s, i, s.len());
        assert(rest@ == s@.skip(i as int));
        if starts_with(rest, p) {
            proof {
                lemma_find_skip(s@, p@, i as int);
            }
            return Some(i);
        }
        i += 1;
    }
    proof {
        lemma_find_skip(s@, p@, i as int);
        lemma_find_short(s@.skip(i as int), p@);
    }
    None
}

/// The pieces of `s` between the occurrences of the separator `sep`.
pub fn split_on(s: &[char], sep: &[char]) -> (r: Vec<Vec<char>>)
    requires
        sep@.len() > 0,
    ensures
        char_views(r@) == split(s@, sep@),
        r@.len() >= 1,
{
    let mut pieces: Vec<Vec<char>> = Vec::new();
    let mut start: usize = 0;
    assert(s@.skip(0) == s@);
    assert(char_views(pieces@) + split(s@, sep@) == split(s@, sep@));
    loop
        invariant
            sep@.len() > 0,
            start <= s.len(),
            split(s@, sep@) == char_views(pieces@) + split(s@.skip(start as int), sep@),
        decreases s.len() - start,
    {
        let rest = slice_subrange(s, start, s.len());
        assert(rest@ == s@.skip(start as int));
        match find_in(rest, sep) {
            Some(i) => {
                let piece = vstd::slice::slice_to_vec(slice_subrange(rest, 0, i));
                proof {
                    let next = rest@.subrange(i + sep@.len(), rest@.len() as int);
                    assert(next == s@.skip(start + i + sep@.len()));
                    assert(char_views(pieces@.push(piece)) == char_views(pieces@) + seq![
                        rest@.subrange(0, i as int),
                    ]);
                }
                pieces.push(piece);
                start = start + i + sep.len();
            },
            None => {
                let piece = vstd::slice::slice_to_vec(rest);
                proof {
                    assert(char_views(pieces@.push(piece)) == char_views(pieces@) + seq![rest@]);
                }
                pieces.push(piece);
                return pieces;
            },
        }
    }
}

/// The slice without the white space at its ends.
pub fn trimmed(s: &[char]) -> (r: &[char])
    ensures
        r@ == trim(s@),
{
    let mut lo: usize = 0;
    assert(s@.skip(0) == s@);
    while lo < s.len() && char_is_whitespace(s[lo])
        invariant
            lo <= s.len(),
            trim_start(s@) == trim_start(s@.skip(lo as int)),
        decreases s.len() - lo,
    {
        assert(s@.skip(lo as int).drop_first() == s@.skip(lo + 1));
        lo += 1;
    }
    assert(trim_start(s@) == s@.skip(lo as int));
    assert(s@.skip(lo as int) == s@.subrange(lo as int, s@.len() as int));
    let mut hi: usize = s.len();
    while hi > lo && char_is_whitespace(s[hi - 1])
        invariant
            lo <= hi <= s.len(),
            trim(s@) == trim_end(s@.subrange(lo as int, hi as int)),
        decreases hi - lo,
    {
        assert(s@.subrange(lo as int, hi as int).drop_last() == s@.subrange(
            lo as int,
            hi - 1,
        ));
        hi -= 1;
    }
    slice_subrange(s, lo, hi)
}

/// Whether the slice holds exactly the text of `lit`.
pub fn is_text(s: &[char], lit: &str) -> (b: bool)
    ensures
        b == (s@ == lit@),
{
    let v = to_chars(lit);
    chars_eq(s, v.as_slice())
}

/// Whether the slice starts with the text of `lit`.
pub fn starts_with_text(s: &[char], lit: &str) -> (b: bool)
    ensures
        b == has_prefix(s@, lit@),
{
    let v = to_chars(lit);
    starts_with(s, v.as_slice())
}

/// The character of the decimal digit `d`.
pub fn digit_char(d: usize) -> (c: char)
    requires
        d < 10,
    ensures
        c == digit(d as nat),
{
    let digits: [char; 10] = ['0', '1', '2', '3', '4', '5', '6', '7', '8', '9'];
    digits[d]
}

/// Appends the decimal numeral of `n` to `out`.
pub fn push_decimal(out: &mut String, n: usize)
    ensures
        final(out)@ == old(out)@ + decimal(n as nat),
    decreases n,
{
    if n >= 10 {
        push_decimal(out, n / 10);
    }
    out.push(digit_char(n % 10));
}

/// Appends the characters of `v` to `out`.
pub fn push_chars(out: &mut String, v: &[char])
    ensures
        final(out)@ == old(out)@ + v@,
{
    let mut i: usize = 0;
    while i < v.len()
        invariant
            i <= v.len(),
            out@ == old(out)@ + v@.take(i as int),
        decreases v.len() - i,
    {
        out.push(v[i]);
        i += 1;
    }
    assert(v@.take(v.len() as int) == v@);
}

/// Appends the characters of `s` to `v`.
pub fn extend_chars(v: &mut Vec<char>, s: &[char])
    ensures
        final(v)@ == old(v)@ + s@,
{
    let mut i: usize = 0;
    while i < s.len()
        invariant
            i <= s.len(),
            v@ == old(v)@ + s@.take(i as int),
        decreases s.len() - i,
    {
        v.push(s[i]);
        i += 1;
    }
    assert(s@.take(s.len() as int) == s@);
}

/// The pieces put together with `sep` between neighbours.
pub fn join_chars(parts: &Vec<Vec<char>>, sep: &[char]) -> (r: Vec<char>)
    ensures
        r@ == join(char_views(parts@), sep@),
{
    let mut out: Vec<char> = Vec::new();
    let ghost all = char_views(parts@);
    let mut i: usize = 0;
    while i < parts.len()
        invariant
            i <= parts.len(),
            all == char_views(parts@),
            out@ == join(all.take(i as int), sep@),
        decreases parts.len() - i,
    {
        proof {
            let next = all.take(i + 1);
            assert(next.drop_last() == all.take(i as int));
            assert(next.last() == parts@[i as int]@);
        }
        if i > 0 {
            extend_chars(&mut out, sep);
        }
        extend_chars(&mut out, parts[i].as_slice());
        i += 1;
    }
    assert(all.take(parts.len() as int) == all);
    out
}

/// The first position, from `from` on, of a character that is white space
/// (`space`) or is none (`!space`).
fn scan(s: &[char], from: usize, space: bool) -> (r: usize)
    requires
        from <= s@.len(),
    ensures
        from <= r <= s@.len(),
        space ==> r == word_end(s@, from as int),
        !space ==> r == word_start(s@, from as int),
{
    let mut i: usize = from;
    while i < s.len() && char_is_whitespace(s[i]) != space
        invariant
            from <= i <= s.len(),
            space ==> word_end(s@, from as int) == word_end(s@, i as int),
            !space ==> word_start(s@, from as int) == word_start(s@, i as int),
        decreases s.len() - i,
    {
        i += 1;
    }
    i
}

/// The words of the slice.
pub fn split_whitespace(s: &[char]) -> (r: Vec<Vec<char>>)
    ensures
        char_views(r@) == words(s@),
{
    let mut out: Vec<Vec<char>> = Vec::new();
    let mut from: usize = 0;
    assert(char_views(out@) + words_from(s@, 0) == words(s@));
    loop
        invariant
            from <= s.len(),
            char_views(out@) + words_from(s@, from as int) == words(s@),
        decreases s.len() - from,
    {
        let a = scan(s, from, false);
        if a >= s.len() {
            assert(char_views(out@) + Seq::<Seq<char>>::empty() == char_views(out@));
            return out;
        }
        let b = scan(s, a, true);
        proof {
            lemma_word_bounds(s@, from as int);
            lemma_word_bounds(s@, a as int);
        }
        let word = vstd::slice::slice_to_vec(slice_subrange(s, a, b));
        proof {
            assert(char_views(out@.push(word)) == char_views(out@) + seq![s@.subrange(
                a as int,
                b as int,
            )]);
        }
        out.push(word);
        from = b;
    }
}

} // verus!
