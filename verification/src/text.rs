//! Character-level text handling: trimming, searching, replacing, joining, numbers in decimal.
//!
//! A string is modelled by the sequence of its characters. The executable functions work on
//! slices of characters; `chars_of` and `string_of` go from strings to characters and back.

use vstd::prelude::*;
use vstd::utf8::{decode_utf8, valid_utf8};

verus! {

/// `String::push` appends one character and leaves what was there before.
pub assume_specification[ String::push ](s: &mut String, c: char)
    ensures
        final(s)@ == old(s)@.push(c),
;

// ---------------------------------------------------------------------------------------------
// Strings and characters
// ---------------------------------------------------------------------------------------------

/// The characters of a string.
pub fn chars_of(s: &str) -> (cs: Vec<char>)
    ensures
        cs@ == s@,
{
    let mut cs: Vec<char> = Vec::new();
    for c in it: s.chars()
        invariant
            cs@ == it.seq().take(it.index() as int),
            it.seq() == s@,
    {
        cs.push(c);
    }
    assert(s@.take(s@.len() as int) == s@);
    cs
}

/// The string made of the characters `cs[from..to]`.
pub fn string_of(cs: &Vec<char>, from: usize, to: usize) -> (s: String)
    requires
        from <= to <= cs@.len(),
    ensures
        s@ == cs@.subrange(from as int, to as int),
{
    let mut s = String::new();
    let mut i: usize = from;
    while i < to
        invariant
            from <= i <= to <= cs@.len(),
            s@ == cs@.subrange(from as int, i as int),
        decreases to - i,
    {
        s.push(cs[i]);
        i = i + 1;
    }
    s
}

/// The text that `String::from_utf8_lossy` reads in bytes.
pub uninterp spec fn lossy(bytes: Seq<u8>) -> Seq<char>;

/// Whether reading these bytes gives the text that they encode, where they encode one.
pub open spec fn reads_true(bytes: Seq<u8>) -> bool {
    valid_utf8(bytes) ==> lossy(bytes) == decode_utf8(bytes)
}

/// `String::from_utf8_lossy`. Bytes that are UTF-8 give the text that they encode. What stands for
/// bytes that are not is left to the name: it depends on the bytes alone.
#[verifier::external_body]
pub(crate) fn from_utf8_lossy(bytes: &[u8]) -> (s: String)
    ensures
        s@ == lossy(bytes@),
        valid_utf8(bytes@) ==> s@ == decode_utf8(bytes@),
{
    String::from_utf8_lossy(bytes).into_owned()
}

// ---------------------------------------------------------------------------------------------
// White space
// ---------------------------------------------------------------------------------------------

/// The characters with the Unicode property `White_Space`.
pub open spec fn is_white(c: char) -> bool {
    ||| '\u{9}' <= c <= '\u{d}'
    ||| c == '\u{20}'
    ||| c == '\u{85}'
    ||| c == '\u{a0}'
    ||| c == '\u{1680}'
    ||| '\u{2000}' <= c <= '\u{200a}'
    ||| c == '\u{2028}'
    ||| c == '\u{2029}'
    ||| c == '\u{202f}'
    ||| c == '\u{205f}'
    ||| c == '\u{3000}'
}

/// Whether `c` is white space.
pub fn is_whitespace(c: char) -> (b: bool)
    ensures
        b == is_white(c),
{
    ('\u{9}' <= c && c <= '\u{d}') || c == '\u{20}' || c == '\u{85}' || c == '\u{a0}' || c
        == '\u{1680}' || ('\u{2000}' <= c && c <= '\u{200a}') || c == '\u{2028}' || c == '\u{2029}'
        || c == '\u{202f}' || c == '\u{205f}' || c == '\u{3000}'
}

/// `s` without its leading white space.
pub open spec fn trim_start(s: Seq<char>) -> Seq<char>
    decreases s.len(),
{
    if s.len() > 0 && is_white(s.first()) {
        trim_start(s.drop_first())
    } else {
        s
    }
}

/// `s` without its trailing white space.
pub open spec fn trim_end(s: Seq<char>) -> Seq<char>
    decreases s.len(),
{
    if s.len() > 0 && is_white(s.last()) {
        trim_end(s.drop_last())
    } else {
        s
    }
}

/// `s` without the white space at its two ends.
pub open spec fn trimmed(s: Seq<char>) -> Seq<char> {
    trim_end(trim_start(s))
}

/// The part `cs[from..to]` without the white space at its two ends.
pub fn trim_range(cs: &Vec<char>, from: usize, to: usize) -> (r: (usize, usize))
    requires
        from <= to <= cs@.len(),
    ensures
        from <= r.0 <= r.1 <= to,
        cs@.subrange(r.0 as int, r.1 as int) == trimmed(cs@.subrange(from as int, to as int)),
{
    let mut a: usize = from;
    while a < to && is_whitespace(cs[a])
        invariant
            from <= a <= to <= cs@.len(),
            trim_start(cs@.subrange(a as int, to as int)) == trim_start(
                cs@.subrange(from as int, to as int),
            ),
        decreases to - a,
    {
        assert(cs@.subrange(a as int, to as int).drop_first() == cs@.subrange(a + 1, to as int));
        a = a + 1;
    }
    assert(a < to ==> cs@.subrange(a as int, to as int).first() == cs@[a as int]);
    let mut b: usize = to;
    while a < b && is_whitespace(cs[b - 1])
        invariant
            from <= a <= b <= to <= cs@.len(),
            trim_end(cs@.subrange(a as int, b as int)) == trim_end(
                cs@.subrange(a as int, to as int),
            ),
        decreases b - a,
    {
        assert(cs@.subrange(a as int, b as int).drop_last() == cs@.subrange(a as int, b - 1));
        b = b - 1;
    }
    assert(a < b ==> cs@.subrange(a as int, b as int).last() == cs@[b - 1]);
    (a, b)
}

/// `s` without the white space at its two ends.
pub fn trim(s: &str) -> (t: String)
    ensures
        t@ == trimmed(s@),
{
    let cs = chars_of(s);
    let (a, b) = trim_range(&cs, 0, cs.len());
    assert(cs@.subrange(0, cs@.len() as int) == s@);
    string_of(&cs, a, b)
}

// ---------------------------------------------------------------------------------------------
// Searching and comparing
// ---------------------------------------------------------------------------------------------

/// Whether `s` begins with `p`.
pub open spec fn begins_with(s: Seq<char>, p: Seq<char>) -> bool {
    s.len() >= p.len() && s.take(p.len() as int) == p
}

/// Whether `s` ends with `p`.
pub open spec fn finishes_with(s: Seq<char>, p: Seq<char>) -> bool {
    s.len() >= p.len() && s.skip(s.len() - p.len()) == p
}

/// Whether the characters `cs[at..at + p.len()]` are those of `p`.
fn matches_at(cs: &Vec<char>, at: usize, p: &Vec<char>) -> (b: bool)
    requires
        at + p@.len() <= cs@.len(),
    ensures
        b == (cs@.subrange(at as int, at + p@.len()) == p@),
{
    let n = cs.len();
    let mut i: usize = 0;
    while i < p.len()
        invariant
            i <= p@.len(),
            at + p@.len() <= cs@.len() == n,
            cs@.subrange(at as int, at + i) == p@.take(i as int),
        decreases p@.len() - i,
    {
        if cs[at + i] != p[i] {
            assert(cs@.subrange(at as int, at + p@.len())[i as int] == cs@[at + i]);
            return false;
        }
        assert(cs@.subrange(at as int, at + i + 1) == cs@.subrange(at as int, at + i).push(
            cs@[at + i],
        ));
        assert(p@.take(i + 1) == p@.take(i as int).push(p@[i as int]));
        i = i + 1;
    }
    assert(p@.take(p@.len() as int) == p@);
    true
}

/// Whether the part `cs[from..to]` begins with `p`.
pub fn part_begins_with(cs: &Vec<char>, from: usize, to: usize, p: &str) -> (b: bool)
    requires
        from <= to <= cs@.len(),
    ensures
        b == begins_with(cs@.subrange(from as int, to as int), p@),
{
    let p = chars_of(p);
    if to - from < p.len() {
        return false;
    }
    assert(cs@.subrange(from as int, to as int).take(p@.len() as int) == cs@.subrange(
        from as int,
        from + p@.len(),
    ));
    matches_at(cs, from, &p)
}

/// Whether `s` ends with `p`.
pub fn ends_with(s: &str, p: &str) -> (b: bool)
    ensures
        b == finishes_with(s@, p@),
{
    let cs = chars_of(s);
    let p = chars_of(p);
    if cs.len() < p.len() {
        return false;
    }
    let at = cs.len() - p.len();
    assert(cs@.skip(at as int) == cs@.subrange(at as int, at + p@.len()));
    matches_at(&cs, at, &p)
}

/// Whether two strings hold the same characters.
pub fn same(a: &str, b: &str) -> (r: bool)
    ensures
        r == (a@ == b@),
{
    let x = chars_of(a);
    let y = chars_of(b);
    if x.len() != y.len() {
        return false;
    }
    assert(x@.subrange(0, y@.len() as int) == x@);
    matches_at(&x, 0, &y)
}

/// The place of the first `c` in `s` at or after `i`; the length of `s` if there is none.
pub open spec fn find_from(s: Seq<char>, i: int, c: char) -> int
    decreases s.len() - i,
{
    if i >= s.len() {
        s.len() as int
    } else if s[i] == c {
        i
    } else {
        find_from(s, i + 1, c)
    }
}

pub proof fn lemma_find_from(s: Seq<char>, i: int, c: char)
    requires
        0 <= i <= s.len(),
    ensures
        i <= find_from(s, i, c) <= s.len(),
        find_from(s, i, c) < s.len() ==> s[find_from(s, i, c)] == c,
        forall|j: int| i <= j < find_from(s, i, c) ==> s[j] != c,
    decreases s.len() - i,
{
    if i < s.len() && s[i] != c {
        lemma_find_from(s, i + 1, c);
    }
}

/// What is found from `i` on is found in the part that starts at `a`, `a` places earlier.
pub proof fn lemma_find_from_skip(s: Seq<char>, a: int, i: int, c: char)
    requires
        0 <= a <= i <= s.len(),
    ensures
        find_from(s.skip(a), i - a, c) == find_from(s, i, c) - a,
    decreases s.len() - i,
{
    if i < s.len() && s[i] != c {
        lemma_find_from_skip(s, a, i + 1, c);
    }
}

/// What is found in a text is found at the same place when more text follows.
pub proof fn lemma_find_from_prefix(s: Seq<char>, t: Seq<char>, i: int, c: char)
    requires
        0 <= i <= s.len(),
        find_from(s, i, c) < s.len(),
    ensures
        find_from(s + t, i, c) == find_from(s, i, c),
    decreases s.len() - i,
{
    if s[i] != c {
        lemma_find_from_prefix(s, t, i + 1, c);
    }
}

/// A character is found where it stands first.
pub proof fn lemma_find_first(before: Seq<char>, c: char, after: Seq<char>)
    requires
        !before.contains(c),
    ensures
        find_from(before + seq![c] + after, 0, c) == before.len(),
{
    let s = before + seq![c] + after;
    lemma_find_from(s, 0, c);
    let at = find_from(s, 0, c);
    if at < before.len() {
        assert(before[at] == c);
    } else if at > before.len() {
        assert(s[before.len() as int] == c);
    }
}

/// The place of the first `c` in `cs` at or after `from`; the length of `cs` if there is none.
pub fn find_char(cs: &Vec<char>, from: usize, c: char) -> (at: usize)
    requires
        from <= cs@.len(),
    ensures
        at == find_from(cs@, from as int, c),
        from <= at <= cs@.len(),
{
    let mut i: usize = from;
    while i < cs.len() && cs[i] != c
        invariant
            from <= i <= cs@.len(),
            find_from(cs@, from as int, c) == find_from(cs@, i as int, c),
        decreases cs@.len() - i,
    {
        i = i + 1;
    }
    i
}

// ---------------------------------------------------------------------------------------------
// Replacing
// ---------------------------------------------------------------------------------------------

/// `s` with every occurrence of `pat`, looked for from the left and without overlap, turned into
/// `rep`.
pub open spec fn replaced(s: Seq<char>, pat: Seq<char>, rep: Seq<char>) -> Seq<char>
    decreases s.len(),
{
    if s.len() == 0 || pat.len() == 0 {
        s
    } else if begins_with(s, pat) {
        rep + replaced(s.skip(pat.len() as int), pat, rep)
    } else {
        seq![s[0]] + replaced(s.skip(1), pat, rep)
    }
}

/// Replaces every occurrence of the characters `pat` by `rep`.
pub fn replace_all(cs: &Vec<char>, pat: &str, rep: &str) -> (out: Vec<char>)
    requires
        pat@.len() > 0,
    ensures
        out@ == replaced(cs@, pat@, rep@),
{
    let pat = chars_of(pat);
    let rep = chars_of(rep);
    let mut out: Vec<char> = Vec::new();
    let mut i: usize = 0;
    assert(cs@.skip(0) == cs@);
    while i < cs.len()
        invariant
            i <= cs@.len(),
            pat@.len() > 0,
            out@ + replaced(cs@.skip(i as int), pat@, rep@) == replaced(cs@, pat@, rep@),
        decreases cs@.len() - i,
    {
        let ghost rest = cs@.skip(i as int);
        let ghost before = out@;
        if cs.len() - i >= pat.len() && matches_at(cs, i, &pat) {
            proof {
                assert(rest.take(pat@.len() as int) == cs@.subrange(i as int, i + pat@.len()));
                assert(rest.skip(pat@.len() as int) == cs@.skip(i + pat@.len()));
            }
            let mut j: usize = 0;
            while j < rep.len()
                invariant
                    j <= rep@.len(),
                    out@ == before + rep@.take(j as int),
                decreases rep@.len() - j,
            {
                out.push(rep[j]);
                assert(rep@.take(j + 1) == rep@.take(j as int).push(rep@[j as int]));
                j = j + 1;
            }
            assert(rep@.take(rep@.len() as int) == rep@);
            assert(out@ + replaced(cs@.skip(i + pat@.len()), pat@, rep@) == before + (rep@
                + replaced(cs@.skip(i + pat@.len()), pat@, rep@)));
            i = i + pat.len();
        } else {
            proof {
                if rest.len() >= pat@.len() {
                    assert(rest.take(pat@.len() as int) == cs@.subrange(i as int, i + pat@.len()));
                }
                assert(rest.skip(1) == cs@.skip(i + 1));
            }
            out.push(cs[i]);
            assert(out@ + replaced(cs@.skip(i + 1), pat@, rep@) == before + (seq![cs@[i as int]]
                + replaced(cs@.skip(i + 1), pat@, rep@)));
            i = i + 1;
        }
    }
    assert(out@ + cs@.skip(i as int) == out@);
    out
}

/// An ASCII capital as the small letter, any other character as it is.
pub open spec fn lower_char(c: char) -> char {
    if 'A' <= c <= 'Z' {
        ((c as u32) + 32) as char
    } else {
        c
    }
}

/// `s` with its ASCII capitals turned into small letters.
pub open spec fn lowered(s: Seq<char>) -> Seq<char> {
    s.map_values(|c: char| lower_char(c))
}

fn lowercase_char(c: char) -> (r: char)
    ensures
        r == lower_char(c),
{
    if 'A' <= c && c <= 'Z' {
        ((c as u8) + 32) as char
    } else {
        c
    }
}

/// The part `cs[from..to]` with its ASCII capitals turned into small letters.
pub fn lowercase(cs: &Vec<char>, from: usize, to: usize) -> (out: Vec<char>)
    requires
        from <= to <= cs@.len(),
    ensures
        out@ == lowered(cs@.subrange(from as int, to as int)),
{
    let mut out: Vec<char> = Vec::new();
    let mut i: usize = from;
    while i < to
        invariant
            from <= i <= to <= cs@.len(),
            out@ == lowered(cs@.subrange(from as int, i as int)),
        decreases to - i,
    {
        out.push(lowercase_char(cs[i]));
        assert(cs@.subrange(from as int, i + 1) == cs@.subrange(from as int, i as int).push(
            cs@[i as int],
        ));
        i = i + 1;
    }
    out
}

// ---------------------------------------------------------------------------------------------
// Words and joining
// ---------------------------------------------------------------------------------------------

/// The characters of each string.
pub open spec fn views(v: Seq<String>) -> Seq<Seq<char>> {
    v.map_values(|s: String| s@)
}

/// How many characters stand before the first white space.
pub open spec fn word_len(s: Seq<char>) -> nat
    decreases s.len(),
{
    if s.len() == 0 || is_white(s.first()) {
        0
    } else {
        1 + word_len(s.drop_first())
    }
}

pub proof fn lemma_word_len(s: Seq<char>)
    ensures
        word_len(s) <= s.len(),
        s.len() > 0 && !is_white(s.first()) ==> word_len(s) > 0,
        word_len(s) < s.len() ==> is_white(s[word_len(s) as int]),
        forall|i: int| 0 <= i < word_len(s) ==> !is_white(s[i]),
    decreases s.len(),
{
    if s.len() > 0 && !is_white(s.first()) {
        lemma_word_len(s.drop_first());
        assert forall|i: int| 0 <= i < word_len(s) implies !is_white(s[i]) by {
            if i > 0 {
                assert(s[i] == s.drop_first()[i - 1]);
            }
        }
    }
}

pub proof fn lemma_trim_start(s: Seq<char>)
    ensures
        trim_start(s).len() <= s.len(),
        trim_start(s).len() > 0 ==> !is_white(trim_start(s).first()),
        trim_start(s) == s.skip(s.len() - trim_start(s).len()),
        forall|i: int| 0 <= i < s.len() - trim_start(s).len() ==> is_white(s[i]),
    decreases s.len(),
{
    if s.len() > 0 && is_white(s.first()) {
        lemma_trim_start(s.drop_first());
        assert forall|i: int| 0 <= i < s.len() - trim_start(s).len() implies is_white(s[i]) by {
            if i > 0 {
                assert(s[i] == s.drop_first()[i - 1]);
            }
        }
    }
}

pub proof fn lemma_trim_end(s: Seq<char>)
    ensures
        trim_end(s).len() <= s.len(),
        trim_end(s).len() > 0 ==> !is_white(trim_end(s).last()),
        trim_end(s) == s.take(trim_end(s).len() as int),
        forall|i: int| trim_end(s).len() <= i < s.len() ==> is_white(s[i]),
    decreases s.len(),
{
    if s.len() > 0 && is_white(s.last()) {
        lemma_trim_end(s.drop_last());
        assert forall|i: int| trim_end(s).len() <= i < s.len() implies is_white(s[i]) by {
            if i < s.len() - 1 {
                assert(s[i] == s.drop_last()[i]);
            }
        }
    }
}

/// Trimmed text begins and ends with characters other than white space, is a part of the text, and
/// only white space stands around it.
pub proof fn lemma_trimmed(s: Seq<char>) -> (a: int)
    ensures
        0 <= a,
        a + trimmed(s).len() <= s.len(),
        trimmed(s) == s.subrange(a, a + trimmed(s).len()),
        forall|i: int| 0 <= i < a ==> is_white(s[i]),
        forall|i: int| a + trimmed(s).len() <= i < s.len() ==> is_white(s[i]),
        trimmed(s).len() > 0 ==> !is_white(trimmed(s).first()) && !is_white(trimmed(s).last()),
        trimmed(trimmed(s)) == trimmed(s),
{
    let t = trim_start(s);
    lemma_trim_start(s);
    lemma_trim_end(t);
    let a = s.len() - t.len();
    assert(trimmed(s) == s.subrange(a, a + trimmed(s).len()));
    assert forall|i: int| a + trimmed(s).len() <= i < s.len() implies is_white(s[i]) by {
        assert(t[i - a] == s[i]);
    }
    if trimmed(s).len() > 0 {
        assert(trimmed(s).first() == t.first());
        assert(trim_start(trimmed(s)) == trimmed(s));
    }
    a
}

/// The words of `s` in order: its longest runs of characters other than white space.
pub open spec fn words(s: Seq<char>) -> Seq<Seq<char>>
    decreases s.len(),
{
    let t = trim_start(s);
    if t.len() == 0 {
        seq![]
    } else {
        proof {
            lemma_trim_start(s);
            lemma_word_len(t);
        }
        let n = word_len(t) as int;
        seq![t.take(n)] + words(t.skip(n))
    }
}

/// The words of `cs`.
pub fn split_words(cs: &Vec<char>) -> (found: Vec<String>)
    ensures
        views(found@) == words(cs@),
{
    let mut found: Vec<String> = Vec::new();
    let mut i: usize = 0;
    proof {
        assert(cs@.skip(0) == cs@);
        assert(views(found@) + words(cs@) == words(cs@));
    }
    while i < cs.len()
        invariant
            i <= cs@.len(),
            views(found@) + words(cs@.skip(i as int)) == words(cs@),
        decreases cs@.len() - i,
    {
        let ghost rest = cs@.skip(i as int);
        if is_whitespace(cs[i]) {
            assert(rest.drop_first() == cs@.skip(i + 1));
            assert(words(rest) == words(rest.drop_first()));
            i = i + 1;
        } else {
            let mut j: usize = i;
            while j < cs.len() && !is_whitespace(cs[j])
                invariant
                    i <= j <= cs@.len(),
                    word_len(cs@.skip(i as int)) == (j - i) + word_len(cs@.skip(j as int)),
                decreases cs@.len() - j,
            {
                assert(cs@.skip(j as int).drop_first() == cs@.skip(j + 1));
                j = j + 1;
            }
            let ghost before = found@;
            found.push(string_of(cs, i, j));
            proof {
                lemma_word_len(rest);
                assert(rest.take(j - i) == cs@.subrange(i as int, j as int));
                assert(rest.skip(j - i) == cs@.skip(j as int));
                assert(views(found@) == views(before) + seq![rest.take(j - i)]);
                assert(views(before) + (seq![rest.take(j - i)] + words(cs@.skip(j as int)))
                    == views(found@) + words(cs@.skip(j as int)));
            }
            i = j;
        }
    }
    assert(views(found@) + Seq::<Seq<char>>::empty() == views(found@));
    found
}

/// The parts in order, each with `sep` before it.
pub open spec fn each_after(parts: Seq<Seq<char>>, sep: Seq<char>) -> Seq<char>
    decreases parts.len(),
{
    if parts.len() == 0 {
        seq![]
    } else {
        each_after(parts.drop_last(), sep) + sep + parts.last()
    }
}

/// The parts in order, with `sep` between two of them.
pub open spec fn joined(parts: Seq<Seq<char>>, sep: Seq<char>) -> Seq<char> {
    if parts.len() == 0 {
        seq![]
    } else {
        parts.first() + each_after(parts.drop_first(), sep)
    }
}

/// The parts in order, with `sep` between two of them.
pub fn join(parts: &Vec<String>, sep: &str) -> (s: String)
    ensures
        s@ == joined(views(parts@), sep@),
{
    if parts.len() == 0 {
        return String::new();
    }
    let ghost tail = views(parts@).drop_first();
    let mut s = parts[0].clone();
    let mut i: usize = 1;
    assert(tail.take(0) == Seq::<Seq<char>>::empty());
    while i < parts.len()
        invariant
            1 <= i <= parts@.len(),
            tail == views(parts@).drop_first(),
            s@ == parts@[0]@ + each_after(tail.take(i - 1), sep@),
        decreases parts@.len() - i,
    {
        s.append(sep);
        s.append(parts[i].as_str());
        proof {
            assert(tail.take(i as int).drop_last() == tail.take(i - 1));
            assert(tail.take(i as int).last() == parts@[i as int]@);
        }
        i = i + 1;
    }
    assert(tail.take(parts@.len() - 1) == tail);
    s
}

/// Joining one part more.
pub proof fn lemma_joined_push(parts: Seq<Seq<char>>, part: Seq<char>, sep: Seq<char>)
    ensures
        joined(parts.push(part), sep) == if parts.len() == 0 {
            part
        } else {
            joined(parts, sep) + sep + part
        },
{
    let all = parts.push(part);
    if parts.len() == 0 {
        assert(all.drop_first() == Seq::<Seq<char>>::empty());
        assert(part + Seq::<char>::empty() == part);
    } else {
        assert(all.drop_first().drop_last() == parts.drop_first());
        assert(all.drop_first().last() == part);
        assert(all.first() == parts.first());
    }
}

/// Joining, seen from the front.
pub proof fn lemma_joined_front(parts: Seq<Seq<char>>, sep: Seq<char>)
    requires
        parts.len() > 1,
    ensures
        joined(parts, sep) == parts.first() + sep + joined(parts.drop_first(), sep),
    decreases parts.len(),
{
    let rest = parts.drop_first();
    let front = parts.drop_last();
    assert(front.push(parts.last()) == parts);
    lemma_joined_push(front, parts.last(), sep);
    if parts.len() == 2 {
        assert(joined(front, sep) == front.first() + Seq::<char>::empty());
        assert(front.first() + Seq::<char>::empty() == parts.first());
        assert(joined(rest, sep) == rest.first() + Seq::<char>::empty());
        assert(rest.first() + Seq::<char>::empty() == parts.last());
    } else {
        lemma_joined_front(front, sep);
        lemma_joined_push(rest.drop_last(), rest.last(), sep);
        assert(rest.drop_last().push(rest.last()) == rest);
        assert(front.drop_first() == rest.drop_last());
        assert(parts.first() + sep + (joined(rest.drop_last(), sep) + sep + rest.last())
            == parts.first() + sep + joined(rest.drop_last(), sep) + sep + rest.last());
    }
}

/// Replacing what does not occur changes nothing.
pub proof fn lemma_replaced_absent(s: Seq<char>, pat: Seq<char>, rep: Seq<char>)
    requires
        pat.len() > 0,
        !s.contains(pat[0]),
    ensures
        replaced(s, pat, rep) == s,
    decreases s.len(),
{
    if s.len() > 0 {
        assert(s[0] != pat[0]);
        if begins_with(s, pat) {
            assert(s.take(pat.len() as int)[0] == s[0]);
        }
        assert forall|i: int| 0 <= i < s.skip(1).len() implies s.skip(1)[i] != pat[0] by {
            assert(s[i + 1] != pat[0]);
        }
        lemma_replaced_absent(s.skip(1), pat, rep);
        assert(seq![s[0]] + s.skip(1) == s);
    }
}

/// A run of characters other than white space.
pub open spec fn is_solid(s: Seq<char>) -> bool {
    s.len() > 0 && forall|i: int| 0 <= i < s.len() ==> !is_white(s[i])
}

/// Words are solid.
pub proof fn lemma_words_are_solid(s: Seq<char>)
    ensures
        forall|k: int| 0 <= k < words(s).len() ==> is_solid(#[trigger] words(s)[k]),
    decreases s.len(),
{
    let t = trim_start(s);
    lemma_trim_start(s);
    if t.len() > 0 {
        lemma_word_len(t);
        let n = word_len(t) as int;
        lemma_words_are_solid(t.skip(n));
        assert forall|k: int| 0 <= k < words(s).len() implies is_solid(#[trigger] words(s)[k]) by {
            if k > 0 {
                assert(words(s)[k] == words(t.skip(n))[k - 1]);
            }
        }
    }
}

proof fn lemma_word_len_solid(word: Seq<char>, rest: Seq<char>)
    requires
        forall|i: int| 0 <= i < word.len() ==> !is_white(word[i]),
        rest.len() == 0 || is_white(rest.first()),
    ensures
        word_len(word + rest) == word.len(),
    decreases word.len(),
{
    if word.len() == 0 {
        assert(word + rest == rest);
    } else {
        assert((word + rest).first() == word[0]);
        assert((word + rest).drop_first() == word.drop_first() + rest);
        lemma_word_len_solid(word.drop_first(), rest);
    }
}

/// The words of a solid run that white space or nothing follows.
proof fn lemma_words_of_front(word: Seq<char>, rest: Seq<char>)
    requires
        is_solid(word),
        rest.len() == 0 || is_white(rest.first()),
    ensures
        words(word + rest) == seq![word] + words(rest),
{
    let s = word + rest;
    assert(s.first() == word[0]);
    lemma_word_len_solid(word, rest);
    assert(s.take(word.len() as int) == word);
    assert(s.skip(word.len() as int) == rest);
}

/// Words joined by blanks are the same words again.
pub proof fn lemma_words_of_joined(parts: Seq<Seq<char>>)
    requires
        forall|k: int| 0 <= k < parts.len() ==> is_solid(#[trigger] parts[k]),
    ensures
        words(joined(parts, " "@)) == parts,
    decreases parts.len(),
{
    reveal_strlit(" ");
    if parts.len() == 0 {
        assert(words(Seq::<char>::empty()) == parts);
    } else if parts.len() == 1 {
        let word = parts[0];
        assert(parts.drop_first() == Seq::<Seq<char>>::empty());
        lemma_words_of_front(word, Seq::<char>::empty());
        assert(words(Seq::<char>::empty()) == Seq::<Seq<char>>::empty());
        assert(seq![word] + Seq::<Seq<char>>::empty() == parts);
    } else {
        let word = parts[0];
        let rest = parts.drop_first();
        lemma_joined_front(parts, " "@);
        let tail = joined(rest, " "@);
        assert forall|k: int| 0 <= k < rest.len() implies is_solid(#[trigger] rest[k]) by {
            assert(rest[k] == parts[k + 1]);
        }
        lemma_words_of_joined(rest);
        let spaced = " "@ + tail;
        assert(spaced.first() == ' ');
        assert(spaced.drop_first() == tail);
        assert(words(spaced) == words(tail));
        lemma_words_of_front(word, spaced);
        assert(word + " "@ + tail == word + spaced);
        assert(seq![word] + rest == parts);
    }
}

// ---------------------------------------------------------------------------------------------
// Numbers
// ---------------------------------------------------------------------------------------------

/// The decimal digit `d`.
pub open spec fn digit(d: nat) -> char {
    (48 + d) as char
}

/// `n` in decimal, without leading zeros.
pub open spec fn decimal(n: nat) -> Seq<char>
    decreases n,
{
    if n < 10 {
        seq![digit(n)]
    } else {
        decimal(n / 10).push(digit(n % 10))
    }
}

/// Different numbers look different.
pub proof fn lemma_decimal_is_injective(a: nat, b: nat)
    requires
        decimal(a) == decimal(b),
    ensures
        a == b,
    decreases a,
{
    lemma_decimal_len(a);
    lemma_decimal_len(b);
    assert(decimal(a).last() == digit(a % 10));
    assert(decimal(b).last() == digit(b % 10));
    if a >= 10 && b >= 10 {
        assert(decimal(a).drop_last() == decimal(a / 10));
        assert(decimal(b).drop_last() == decimal(b / 10));
        lemma_decimal_is_injective(a / 10, b / 10);
    }
}

proof fn lemma_decimal_len(n: nat)
    ensures
        n < 10 ==> decimal(n).len() == 1,
        n >= 10 ==> decimal(n).len() >= 2,
    decreases n,
{
    if n >= 10 {
        lemma_decimal_len(n / 10);
    }
}

/// `n` in decimal, with a minus sign where it is negative.
pub open spec fn signed_decimal(n: int) -> Seq<char> {
    if n < 0 {
        seq!['-'] + decimal((-n) as nat)
    } else {
        decimal(n as nat)
    }
}

/// `n` in decimal.
pub fn decimal_of(n: u64) -> (s: String)
    ensures
        s@ == decimal(n as nat),
    decreases n,
{
    let d = ((n % 10) as u8 + 48) as char;
    let mut s = if n < 10 {
        String::new()
    } else {
        decimal_of(n / 10)
    };
    s.push(d);
    assert(n < 10 ==> s@ == seq![digit(n as nat)]);
    s
}

/// `n` in decimal.
pub fn signed_decimal_of(n: i32) -> (s: String)
    ensures
        s@ == signed_decimal(n as int),
{
    if n < 0 {
        let mut s = String::new();
        s.push('-');
        let magnitude: u64 = (-(n as i64)) as u64;
        let digits = decimal_of(magnitude);
        s.append(digits.as_str());
        s
    } else {
        decimal_of(n as u64)
    }
}

// ---------------------------------------------------------------------------------------------
// Laws
// ---------------------------------------------------------------------------------------------

/// The number that decimal digits stand for.
pub open spec fn number_in(digits: Seq<char>) -> int
    decreases digits.len(),
{
    if digits.len() == 0 {
        0
    } else {
        10 * number_in(digits.drop_last()) + (digits.last() as int - '0' as int)
    }
}

/// A number in decimal reads back as the number. It is made of digits alone, and only zero begins
/// with a zero.
pub proof fn law_decimal_reads_back(n: nat)
    ensures
        number_in(decimal(n)) == n,
        decimal(n).len() > 0,
        forall|i: int| 0 <= i < decimal(n).len() ==> '0' <= #[trigger] decimal(n)[i] <= '9',
        n > 0 ==> decimal(n)[0] != '0',
    decreases n,
{
    let last = digit(n % 10);
    if n < 10 {
        assert(decimal(n).drop_last() == Seq::<char>::empty());
        assert(number_in(Seq::<char>::empty()) == 0);
        assert(decimal(n).last() == digit(n));
    } else {
        law_decimal_reads_back(n / 10);
        assert(decimal(n).drop_last() == decimal(n / 10));
        assert(decimal(n).last() == last);
        assert forall|i: int| 0 <= i < decimal(n).len() implies '0' <= #[trigger] decimal(n)[i]
            <= '9' by {
            if i < decimal(n / 10).len() {
                assert(decimal(n)[i] == decimal(n / 10)[i]);
            }
        }
        assert(decimal(n)[0] == decimal(n / 10)[0]);
    }
}

/// A number below zero is written as a minus sign and what is left without it.
pub proof fn law_negative_numbers_have_a_sign(n: int)
    ensures
        n < 0 ==> signed_decimal(n).first() == '-' && number_in(signed_decimal(n).drop_first())
            == -n,
        n >= 0 ==> number_in(signed_decimal(n)) == n,
{
    if n < 0 {
        law_decimal_reads_back((-n) as nat);
        assert(signed_decimal(n).drop_first() == decimal((-n) as nat));
    } else {
        law_decimal_reads_back(n as nat);
    }
}

/// Trimming takes white space from the two ends and nothing else: whatever stands between white
/// space and neither begins nor ends with some is what is left.
pub proof fn law_trimming_leaves_what_stands_between(
    before: Seq<char>,
    s: Seq<char>,
    after: Seq<char>,
)
    requires
        forall|i: int| 0 <= i < before.len() ==> is_white(#[trigger] before[i]),
        forall|i: int| 0 <= i < after.len() ==> is_white(#[trigger] after[i]),
        s.len() > 0,
        !is_white(s.first()),
        !is_white(s.last()),
    ensures
        trimmed(before + s + after) == s,
{
    let all = before + s + after;
    let a = lemma_trimmed(all);
    let n = trimmed(all).len() as int;
    let from = before.len() as int;
    let to = from + s.len();
    assert(all[from] == s.first());
    assert(all[to - 1] == s.last());
    if a < from {
        if n > 0 {
            assert(trimmed(all).first() == all[a]);
            assert(all[a] == before[a]);
        }
    }
    if a + n > to {
        assert(trimmed(all).last() == all[a + n - 1]);
        assert(all[a + n - 1] == after[a + n - 1 - to]);
    }
    assert(a == from && a + n == to);
    assert(all.subrange(from, to) == s);
}

/// White space alone is trimmed away.
pub proof fn law_white_space_is_trimmed_away(s: Seq<char>)
    requires
        forall|i: int| 0 <= i < s.len() ==> is_white(#[trigger] s[i]),
    ensures
        trimmed(s).len() == 0,
{
    let a = lemma_trimmed(s);
    if trimmed(s).len() > 0 {
        assert(trimmed(s).first() == s[a]);
    }
}

/// White space stands between words: the words of a text with white space in it are those before
/// it and then those after it.
pub proof fn law_white_space_parts_words(a: Seq<char>, c: char, b: Seq<char>)
    requires
        is_white(c),
    ensures
        words(a + seq![c] + b) == words(a) + words(b),
    decreases a.len(),
{
    let s = a + seq![c] + b;
    if a.len() == 0 {
        assert(s.first() == c);
        assert(s.drop_first() == b);
        assert(words(s) == words(b));
        assert(words(a) + words(b) == words(b));
    } else if is_white(a.first()) {
        assert(s.first() == a.first());
        assert(s.drop_first() == a.drop_first() + seq![c] + b);
        law_white_space_parts_words(a.drop_first(), c, b);
    } else {
        let n = word_len(a) as int;
        lemma_word_len(a);
        let word = a.take(n);
        let rest = a.skip(n);
        let tail = rest + seq![c] + b;
        assert(s == word + tail);
        assert(a == word + rest);
        assert(is_solid(word));
        assert(tail.first() == if rest.len() > 0 { rest.first() } else { c });
        assert(rest.len() > 0 ==> rest.first() == a[n]);
        lemma_words_of_front(word, tail);
        lemma_words_of_front(word, rest);
        law_white_space_parts_words(rest, c, b);
        assert(seq![word] + (words(rest) + words(b)) == seq![word] + words(rest) + words(b));
    }
}

/// Characters without white space among them are one word.
pub proof fn law_a_solid_run_is_one_word(s: Seq<char>)
    requires
        s.len() > 0,
        forall|i: int| 0 <= i < s.len() ==> !is_white(#[trigger] s[i]),
    ensures
        words(s) == seq![s],
{
    lemma_words_of_front(s, Seq::<char>::empty());
    assert(s + Seq::<char>::empty() == s);
    assert(words(Seq::<char>::empty()) == Seq::<Seq<char>>::empty());
    assert(seq![s] + Seq::<Seq<char>>::empty() == seq![s]);
}

/// The models of strings are their characters, all of them and in order.
pub proof fn law_views_hold_everything(v: Seq<String>, k: int)
    ensures
        views(v).len() == v.len(),
        0 <= k < v.len() ==> views(v)[k] == v[k]@,
{
}

} // verus!
