//! Web pages: the plain text of a page.

use vstd::prelude::*;
use crate::text::{
    begins_with, chars_of, find_char, find_from, is_solid, is_white, join, joined, lemma_find_from,
    lemma_find_from_prefix, lemma_find_from_skip, lemma_find_first, lemma_joined_push,
    lemma_replaced_absent, lemma_trimmed, lemma_words_are_solid, lemma_words_of_joined, lowercase,
    lowered, part_begins_with, replace_all, replaced, split_words, trim_range, trimmed, words,
};

verus! {

/// Whether the text after a tag is hidden, given what stands between its angle brackets and
/// whether the text before it was: script and style elements hide what they hold.
pub open spec fn hidden_after(tag: Seq<char>, hidden: bool) -> bool {
    let name = trimmed(lowered(tag));
    if begins_with(name, "script"@) || begins_with(name, "style"@) {
        true
    } else if begins_with(name, "/script"@) || begins_with(name, "/style"@) {
        false
    } else {
        hidden
    }
}

/// What the text `s` shows.
pub open spec fn shown(s: Seq<char>, hidden: bool) -> Seq<char> {
    if hidden {
        seq![]
    } else {
        s
    }
}

/// The visible text of `html`, with a blank in the place of each tag after which text is visible.
/// A tag runs from `<` to the next `>`; one that is not closed is dropped with all that follows.
pub open spec fn visible(html: Seq<char>, hidden: bool) -> Seq<char>
    decreases html.len(),
{
    let open = find_from(html, 0, '<');
    proof {
        lemma_find_from(html, 0, '<');
    }
    if open >= html.len() {
        shown(html, hidden)
    } else {
        let close = find_from(html, open + 1, '>');
        proof {
            lemma_find_from(html, open + 1, '>');
        }
        if close >= html.len() {
            shown(html.take(open), hidden)
        } else {
            let after = hidden_after(html.subrange(open + 1, close), hidden);
            shown(html.take(open), hidden) + shown(seq![' '], after) + visible(
                html.skip(close + 1),
                after,
            )
        }
    }
}

/// `s` with the six entities decoded that pages use most, one after the other.
pub open spec fn decoded(s: Seq<char>) -> Seq<char> {
    let s = replaced(s, "&amp;"@, "&"@);
    let s = replaced(s, "&lt;"@, "<"@);
    let s = replaced(s, "&gt;"@, ">"@);
    let s = replaced(s, "&nbsp;"@, " "@);
    let s = replaced(s, "&#39;"@, "'"@);
    replaced(s, "&quot;"@, "\""@)
}

/// `s` with each run of white space turned into one blank and none at the two ends.
pub open spec fn collapsed(s: Seq<char>) -> Seq<char> {
    joined(words(s), " "@)
}

/// The plain text of a page.
pub open spec fn page_text(html: Seq<char>) -> Seq<char> {
    collapsed(decoded(visible(html, false)))
}

fn hides_after(cs: &Vec<char>, from: usize, to: usize, hidden: bool) -> (after: bool)
    requires
        from <= to <= cs@.len(),
    ensures
        after == hidden_after(cs@.subrange(from as int, to as int), hidden),
{
    let name = lowercase(cs, from, to);
    let (a, b) = trim_range(&name, 0, name.len());
    assert(name@.subrange(0, name@.len() as int) == name@);
    if part_begins_with(&name, a, b, "script") || part_begins_with(&name, a, b, "style") {
        true
    } else if part_begins_with(&name, a, b, "/script") || part_begins_with(&name, a, b, "/style") {
        false
    } else {
        hidden
    }
}

fn copy_part(out: &mut Vec<char>, cs: &Vec<char>, from: usize, to: usize)
    requires
        from <= to <= cs@.len(),
    ensures
        final(out)@ == old(out)@ + cs@.subrange(from as int, to as int),
{
    let mut i: usize = from;
    assert(out@ + cs@.subrange(from as int, from as int) == out@);
    while i < to
        invariant
            from <= i <= to <= cs@.len(),
            out@ == old(out)@ + cs@.subrange(from as int, i as int),
        decreases to - i,
    {
        out.push(cs[i]);
        assert(cs@.subrange(from as int, i + 1) == cs@.subrange(from as int, i as int).push(
            cs@[i as int],
        ));
        i = i + 1;
    }
}

fn visible_text(cs: &Vec<char>) -> (out: Vec<char>)
    ensures
        out@ == visible(cs@, false),
{
    let n = cs.len();
    let mut out: Vec<char> = Vec::new();
    let mut hidden = false;
    let mut i: usize = 0;
    assert(cs@.skip(0) == cs@);
    while i < n
        invariant
            i <= n == cs@.len(),
            out@ + visible(cs@.skip(i as int), hidden) == visible(cs@, false),
        decreases n - i,
    {
        let ghost rest = cs@.skip(i as int);
        let ghost before = out@;
        let ghost was_hidden = hidden;
        let open = find_char(cs, i, '<');
        proof {
            lemma_find_from_skip(cs@, i as int, i as int, '<');
            assert(rest.take(open - i) == cs@.subrange(i as int, open as int));
        }
        if !hidden {
            copy_part(&mut out, cs, i, open);
        }
        assert(out@ == before + shown(rest.take(open - i), hidden));
        if open >= n {
            assert(rest.take(rest.len() as int) == rest);
            assert(out@ == visible(cs@, false));
            return out;
        }
        let close = find_char(cs, open + 1, '>');
        proof {
            lemma_find_from_skip(cs@, i as int, open + 1, '>');
        }
        if close >= n {
            assert(out@ == visible(cs@, false));
            return out;
        }
        proof {
            assert(rest.subrange(open + 1 - i, close - i) == cs@.subrange(
                open + 1,
                close as int,
            ));
            assert(rest.skip(close + 1 - i) == cs@.skip(close + 1));
        }
        hidden = hides_after(cs, open + 1, close, hidden);
        if !hidden {
            out.push(' ');
        }
        proof {
            let tail = visible(cs@.skip(close + 1), hidden);
            assert(out@ == before + shown(rest.take(open - i), was_hidden) + shown(
                seq![' '],
                hidden,
            ));
            assert(out@ + tail == before + (shown(rest.take(open - i), was_hidden) + shown(
                seq![' '],
                hidden,
            ) + tail));
        }
        i = close + 1;
    }
    assert(out@ + visible(cs@.skip(i as int), hidden) == out@);
    out
}

fn decode_entities(cs: &Vec<char>) -> (out: Vec<char>)
    ensures
        out@ == decoded(cs@),
{
    proof {
        reveal_strlit("&amp;");
        reveal_strlit("&lt;");
        reveal_strlit("&gt;");
        reveal_strlit("&nbsp;");
        reveal_strlit("&#39;");
        reveal_strlit("&quot;");
    }
    let out = replace_all(cs, "&amp;", "&");
    let out = replace_all(&out, "&lt;", "<");
    let out = replace_all(&out, "&gt;", ">");
    let out = replace_all(&out, "&nbsp;", " ");
    let out = replace_all(&out, "&#39;", "'");
    replace_all(&out, "&quot;", "\"")
}

/// The plain text of an HTML page: tags, scripts and styles removed, entities decoded, white space
/// collapsed.
pub fn strip_html_tags(html: &str) -> (text: String)
    ensures
        text@ == page_text(html@),
{
    let cs = chars_of(html);
    let seen = visible_text(&cs);
    let plain = decode_entities(&seen);
    join(&split_words(&plain), " ")
}

// ---------------------------------------------------------------------------------------------
// Laws
// ---------------------------------------------------------------------------------------------

/// Whether white space stands in `s` only as single blanks between other characters.
pub open spec fn is_tidy(s: Seq<char>) -> bool {
    forall|i: int|
        0 <= i < s.len() && is_white(#[trigger] s[i]) ==> s[i] == ' ' && 0 < i < s.len() - 1
            && !is_white(s[i - 1]) && !is_white(s[i + 1])
}

proof fn lemma_joined_is_tidy(parts: Seq<Seq<char>>)
    requires
        forall|k: int| 0 <= k < parts.len() ==> is_solid(#[trigger] parts[k]),
    ensures
        is_tidy(joined(parts, " "@)),
        parts.len() > 0 ==> joined(parts, " "@).len() > 0 && !is_white(joined(parts, " "@).last()),
    decreases parts.len(),
{
    if parts.len() > 0 {
        reveal_strlit(" ");
        let front = parts.drop_last();
        let word = parts.last();
        assert forall|k: int| 0 <= k < front.len() implies is_solid(#[trigger] front[k]) by {
            assert(front[k] == parts[k]);
        }
        assert(is_solid(parts[parts.len() - 1]));
        lemma_joined_is_tidy(front);
        lemma_joined_push(front, word, " "@);
        assert(front.push(word) == parts);
        let before = joined(front, " "@);
        let all = joined(parts, " "@);
        if front.len() > 0 {
            assert(all == before + " "@ + word);
            assert forall|i: int| 0 <= i < all.len() && is_white(#[trigger] all[i]) implies all[i]
                == ' ' && 0 < i < all.len() - 1 && !is_white(all[i - 1]) && !is_white(
                all[i + 1],
            ) by {
                if i < before.len() {
                    assert(all[i] == before[i]);
                    assert(i < before.len() - 1);
                    assert(all[i - 1] == before[i - 1]);
                    assert(all[i + 1] == before[i + 1]);
                } else if i > before.len() {
                    assert(all[i] == word[i - before.len() - 1]);
                } else {
                    assert(all[i - 1] == before.last());
                    assert(all[i + 1] == word[0]);
                }
            }
        } else {
            assert(all == word);
        }
    }
}

/// The plain text of a page is tidy: no white space at its ends, and single blanks inside.
pub proof fn law_page_text_is_tidy(html: Seq<char>)
    ensures
        is_tidy(page_text(html)),
{
    let s = decoded(visible(html, false));
    lemma_words_are_solid(s);
    lemma_joined_is_tidy(words(s));
}

/// Collapsing white space twice is collapsing it once.
pub proof fn law_collapsing_is_idempotent(s: Seq<char>)
    ensures
        collapsed(collapsed(s)) == collapsed(s),
{
    lemma_words_are_solid(s);
    lemma_words_of_joined(words(s));
}

/// Text without tags and entities passes through, but for its white space.
pub proof fn law_plain_text_passes_through(s: Seq<char>)
    requires
        !s.contains('<'),
        !s.contains('&'),
    ensures
        page_text(s) == collapsed(s),
{
    lemma_find_from(s, 0, '<');
    assert(visible(s, false) == s);
    reveal_strlit("&amp;");
    reveal_strlit("&lt;");
    reveal_strlit("&gt;");
    reveal_strlit("&nbsp;");
    reveal_strlit("&#39;");
    reveal_strlit("&quot;");
    lemma_replaced_absent(s, "&amp;"@, "&"@);
    lemma_replaced_absent(s, "&lt;"@, "<"@);
    lemma_replaced_absent(s, "&gt;"@, ">"@);
    lemma_replaced_absent(s, "&nbsp;"@, " "@);
    lemma_replaced_absent(s, "&#39;"@, "'"@);
    lemma_replaced_absent(s, "&quot;"@, "\""@);
}

/// The plain text of a page is its own plain text, unless decoding its entities has brought out an
/// angle bracket or an ampersand.
pub proof fn law_page_text_is_settled(html: Seq<char>)
    requires
        !page_text(html).contains('<'),
        !page_text(html).contains('&'),
    ensures
        page_text(page_text(html)) == page_text(html),
{
    law_plain_text_passes_through(page_text(html));
    law_collapsing_is_idempotent(decoded(visible(html, false)));
}

proof fn lemma_find_here(before: Seq<char>, c: char, after: Seq<char>)
    requires
        !before.contains(c),
    ensures
        find_from(before + seq![c] + after, 0, c) == before.len(),
{
    lemma_find_first(before, c, after);
}

/// A tag that is closed is taken out, and the text around it is kept where it is visible.
pub proof fn law_tags_are_taken_out(
    before: Seq<char>,
    tag: Seq<char>,
    after: Seq<char>,
    hidden: bool,
)
    requires
        !before.contains('<'),
        !tag.contains('>'),
    ensures
        visible(before + seq!['<'] + tag + seq!['>'] + after, hidden) == shown(before, hidden)
            + shown(seq![' '], hidden_after(tag, hidden)) + visible(
            after,
            hidden_after(tag, hidden),
        ),
{
    let html = before + seq!['<'] + tag + seq!['>'] + after;
    let inside = tag + seq!['>'] + after;
    assert(html == before + seq!['<'] + inside);
    lemma_find_here(before, '<', inside);
    let open = before.len() as int;
    lemma_find_here(tag, '>', after);
    assert(html.skip(open + 1) == inside);
    lemma_find_from_skip(html, open + 1, open + 1, '>');
    let close = open + 1 + tag.len();
    assert(find_from(html, open + 1, '>') == close);
    assert(html.take(open) == before);
    assert(html.subrange(open + 1, close) == tag);
    assert(html.skip(close + 1) == after);
}

/// Whether a text that is hidden is hidden to its end and ends outside of any tag.
pub open spec fn stays_hidden(html: Seq<char>) -> bool
    decreases html.len(),
{
    let open = find_from(html, 0, '<');
    proof {
        lemma_find_from(html, 0, '<');
    }
    if open >= html.len() {
        true
    } else {
        let close = find_from(html, open + 1, '>');
        proof {
            lemma_find_from(html, open + 1, '>');
        }
        close < html.len() && hidden_after(html.subrange(open + 1, close), true) && stays_hidden(
            html.skip(close + 1),
        )
    }
}

proof fn lemma_find_past(s: Seq<char>, i: int, n: int, c: char)
    requires
        0 <= i <= n <= s.len(),
        forall|j: int| i <= j < n ==> s[j] != c,
    ensures
        find_from(s, i, c) == find_from(s, n, c),
    decreases n - i,
{
    if i < n {
        lemma_find_past(s, i + 1, n, c);
    }
}

/// Hidden text leaves no trace before what follows it.
pub proof fn law_hidden_text_leaves_no_trace(inside: Seq<char>, after: Seq<char>)
    requires
        stays_hidden(inside),
    ensures
        visible(inside + after, true) == visible(after, true),
    decreases inside.len(),
{
    let all = inside + after;
    let open = find_from(inside, 0, '<');
    lemma_find_from(inside, 0, '<');
    if open < inside.len() {
        let close = find_from(inside, open + 1, '>');
        lemma_find_from(inside, open + 1, '>');
        lemma_find_from_prefix(inside, after, 0, '<');
        lemma_find_from_prefix(inside, after, open + 1, '>');
        assert(all.subrange(open + 1, close) == inside.subrange(open + 1, close));
        assert(all.skip(close + 1) == inside.skip(close + 1) + after);
        law_hidden_text_leaves_no_trace(inside.skip(close + 1), after);
        assert(visible(all, true) == visible(inside.skip(close + 1) + after, true));
    } else {
        let n = inside.len() as int;
        let at = find_from(after, 0, '<');
        lemma_find_from(after, 0, '<');
        lemma_find_past(all, 0, n, '<');
        assert(all.skip(n) == after);
        lemma_find_from_skip(all, n, n, '<');
        assert(find_from(all, 0, '<') == n + at);
        if at < after.len() {
            let end = find_from(after, at + 1, '>');
            lemma_find_from(after, at + 1, '>');
            lemma_find_from_skip(all, n, n + at + 1, '>');
            assert(find_from(all, n + at + 1, '>') == n + end);
            if end < after.len() {
                assert(all.subrange(n + at + 1, n + end) == after.subrange(at + 1, end));
                assert(all.skip(n + end + 1) == after.skip(end + 1));
            }
        }
    }
}

/// What a script or style element holds is not shown: in the place of the whole element stands one
/// blank.
pub proof fn law_scripts_and_styles_are_not_shown(
    before: Seq<char>,
    opening: Seq<char>,
    inside: Seq<char>,
    closing: Seq<char>,
    after: Seq<char>,
)
    requires
        !before.contains('<'),
        !opening.contains('>'),
        !closing.contains('>'),
        stays_hidden(inside),
        hidden_after(opening, false),
        !hidden_after(closing, true),
    ensures
        visible(
            before + seq!['<'] + opening + seq!['>'] + (inside + (seq!['<'] + closing + seq!['>']
                + after)),
            false,
        ) == before + seq![' '] + visible(after, false),
{
    let end = seq!['<'] + closing + seq!['>'] + after;
    law_tags_are_taken_out(before, opening, inside + end, false);
    law_hidden_text_leaves_no_trace(inside, end);
    let none = Seq::<char>::empty();
    assert(end == none + seq!['<'] + closing + seq!['>'] + after);
    law_tags_are_taken_out(none, closing, after, true);
    assert(before + none + (none + seq![' '] + visible(after, false)) == before + seq![' ']
        + visible(after, false));
}

/// Whether text after `html` is hidden, given whether its beginning is; nothing where `html` ends
/// inside a tag.
pub open spec fn hidden_at_end(html: Seq<char>, hidden: bool) -> Option<bool>
    decreases html.len(),
{
    let open = find_from(html, 0, '<');
    proof {
        lemma_find_from(html, 0, '<');
    }
    if open >= html.len() {
        Some(hidden)
    } else {
        let close = find_from(html, open + 1, '>');
        proof {
            lemma_find_from(html, open + 1, '>');
        }
        if close >= html.len() {
            None
        } else {
            hidden_at_end(
                html.skip(close + 1),
                hidden_after(html.subrange(open + 1, close), hidden),
            )
        }
    }
}

/// A page is read from left to right: where `a` does not end inside a tag, what `a` and `b` show is
/// what `a` shows and then what `b` shows after it.
pub proof fn law_pages_are_read_from_left_to_right(a: Seq<char>, b: Seq<char>, hidden: bool)
    requires
        hidden_at_end(a, hidden) is Some,
    ensures
        visible(a + b, hidden) == visible(a, hidden) + visible(b, hidden_at_end(a, hidden)->Some_0),
    decreases a.len(),
{
    let all = a + b;
    let open = find_from(a, 0, '<');
    lemma_find_from(a, 0, '<');
    if open < a.len() {
        let close = find_from(a, open + 1, '>');
        lemma_find_from(a, open + 1, '>');
        lemma_find_from_prefix(a, b, 0, '<');
        lemma_find_from_prefix(a, b, open + 1, '>');
        let after = hidden_after(a.subrange(open + 1, close), hidden);
        assert(all.take(open) == a.take(open));
        assert(all.subrange(open + 1, close) == a.subrange(open + 1, close));
        assert(all.skip(close + 1) == a.skip(close + 1) + b);
        law_pages_are_read_from_left_to_right(a.skip(close + 1), b, after);
        let head = shown(a.take(open), hidden) + shown(seq![' '], after);
        let rest = visible(b, hidden_at_end(a, hidden)->Some_0);
        assert(head + (visible(a.skip(close + 1), after) + rest) == head + visible(
            a.skip(close + 1),
            after,
        ) + rest);
    } else {
        let n = a.len() as int;
        let at = find_from(b, 0, '<');
        lemma_find_from(b, 0, '<');
        lemma_find_past(all, 0, n, '<');
        assert(all.skip(n) == b);
        lemma_find_from_skip(all, n, n, '<');
        assert(find_from(all, 0, '<') == n + at);
        if at >= b.len() {
            assert(shown(all, hidden) == shown(a, hidden) + shown(b, hidden));
        } else {
            let end = find_from(b, at + 1, '>');
            lemma_find_from(b, at + 1, '>');
            lemma_find_from_skip(all, n, n + at + 1, '>');
            assert(find_from(all, n + at + 1, '>') == n + end);
            assert(all.take(n + at) == a + b.take(at));
            assert(shown(all.take(n + at), hidden) == shown(a, hidden) + shown(b.take(at), hidden));
            if end < b.len() {
                assert(all.subrange(n + at + 1, n + end) == b.subrange(at + 1, end));
                assert(all.skip(n + end + 1) == b.skip(end + 1));
                let after = hidden_after(b.subrange(at + 1, end), hidden);
                let tail = visible(b.skip(end + 1), after);
                assert(shown(a, hidden) + shown(b.take(at), hidden) + shown(seq![' '], after) + tail
                    == shown(a, hidden) + (shown(b.take(at), hidden) + shown(seq![' '], after)
                    + tail));
            }
        }
    }
}

proof fn lemma_blank_is_visible(after: Seq<char>)
    ensures
        visible(seq![' '] + after, false) == seq![' '] + visible(after, false),
{
    lemma_find_from(seq![' '], 0, '<');
    law_pages_are_read_from_left_to_right(seq![' '], after, false);
}

/// A tag reads as a blank: the text of a page is that of the page with a blank in the place of a
/// tag that hides nothing.
pub proof fn law_a_tag_reads_as_a_blank(before: Seq<char>, tag: Seq<char>, after: Seq<char>)
    requires
        hidden_at_end(before, false) == Some(false),
        !tag.contains('>'),
        !hidden_after(tag, false),
    ensures
        page_text(before + (seq!['<'] + tag + seq!['>'] + after)) == page_text(
            before + (seq![' '] + after),
        ),
{
    let none = Seq::<char>::empty();
    let rest = seq!['<'] + tag + seq!['>'] + after;
    assert(rest == none + seq!['<'] + tag + seq!['>'] + after);
    law_tags_are_taken_out(none, tag, after, false);
    assert(none + seq![' '] + visible(after, false) == seq![' '] + visible(after, false));
    lemma_blank_is_visible(after);
    law_pages_are_read_from_left_to_right(before, rest, false);
    law_pages_are_read_from_left_to_right(before, seq![' '] + after, false);
}

/// A script or style element reads as a blank, together with what it holds.
pub proof fn law_a_script_or_style_reads_as_a_blank(
    before: Seq<char>,
    opening: Seq<char>,
    inside: Seq<char>,
    closing: Seq<char>,
    after: Seq<char>,
)
    requires
        hidden_at_end(before, false) == Some(false),
        !opening.contains('>'),
        !closing.contains('>'),
        stays_hidden(inside),
        hidden_after(opening, false),
        !hidden_after(closing, true),
    ensures
        page_text(
            before + (seq!['<'] + opening + seq!['>'] + (inside + (seq!['<'] + closing + seq!['>']
                + after))),
        ) == page_text(before + (seq![' '] + after)),
{
    let none = Seq::<char>::empty();
    let end = inside + (seq!['<'] + closing + seq!['>'] + after);
    let rest = seq!['<'] + opening + seq!['>'] + end;
    assert(rest == none + seq!['<'] + opening + seq!['>'] + end);
    law_scripts_and_styles_are_not_shown(none, opening, inside, closing, after);
    assert(none + seq![' '] + visible(after, false) == seq![' '] + visible(after, false));
    lemma_blank_is_visible(after);
    law_pages_are_read_from_left_to_right(before, rest, false);
    law_pages_are_read_from_left_to_right(before, seq![' '] + after, false);
}

/// A tag that is not closed swallows the rest of the page.
pub proof fn law_an_open_tag_swallows_the_rest(before: Seq<char>, rest: Seq<char>)
    requires
        hidden_at_end(before, false) is Some,
        !rest.contains('>'),
    ensures
        page_text(before + (seq!['<'] + rest)) == page_text(before),
{
    let hidden = hidden_at_end(before, false)->Some_0;
    let tail = seq!['<'] + rest;
    law_pages_are_read_from_left_to_right(before, tail, false);
    assert(tail[0] == '<');
    lemma_find_from(tail, 1, '>');
    let close = find_from(tail, 1, '>');
    if close < tail.len() {
        assert(rest[close - 1] == '>');
    }
    assert(tail.take(0) == Seq::<char>::empty());
    assert(visible(tail, hidden) == Seq::<char>::empty());
    assert(visible(before, false) + Seq::<char>::empty() == visible(before, false));
}

/// Whether `c` is the small letter or sign `w`, or the capital of that letter.
pub open spec fn is_letter(c: char, w: char) -> bool {
    c == w || ('A' <= c <= 'Z' && c as int + 32 == w as int)
}

/// Whether a tag begins with a word, in capitals or not and after any white space.
pub open spec fn tag_begins(tag: Seq<char>, word: Seq<char>) -> bool {
    exists|i: int| #[trigger] tag_begins_at(tag, word, i)
}

/// Whether a tag begins with a word after `i` characters of white space.
pub open spec fn tag_begins_at(tag: Seq<char>, word: Seq<char>, i: int) -> bool {
    &&& 0 <= i <= tag.len() - word.len()
    &&& forall|j: int| 0 <= j < i ==> is_white(#[trigger] tag[j])
    &&& forall|j: int| 0 <= j < word.len() ==> is_letter(tag[i + j], #[trigger] word[j])
}

proof fn lemma_tag_begins(tag: Seq<char>, word: Seq<char>)
    requires
        word.len() > 0,
        forall|j: int|
            0 <= j < word.len() ==> !is_white(#[trigger] word[j]) && !('A' <= word[j] <= 'Z'),
    ensures
        begins_with(trimmed(lowered(tag)), word) == tag_begins(tag, word),
{
    let t = lowered(tag);
    let name = trimmed(t);
    let n = word.len() as int;
    let a = lemma_trimmed(t);
    assert forall|j: int| 0 <= j < t.len() implies is_white(#[trigger] t[j]) == is_white(tag[j]) by {
    }
    if begins_with(name, word) {
        assert(name.take(n) == word);
        assert forall|j: int| 0 <= j < a implies is_white(#[trigger] tag[j]) by {
            assert(is_white(t[j]));
        }
        assert forall|j: int| 0 <= j < n implies is_letter(tag[a + j], #[trigger] word[j]) by {
            assert(name.take(n)[j] == name[j]);
            assert(name[j] == t[a + j]);
        }
        assert(tag_begins_at(tag, word, a));
    }
    if tag_begins(tag, word) {
        let i = choose|i: int| #[trigger] tag_begins_at(tag, word, i);
        assert forall|j: int| 0 <= j < n implies #[trigger] t[i + j] == word[j] by {
            assert(is_letter(tag[i + j], word[j]));
        }
        assert(t[i + 0] == word[0]);
        assert(t[i + (n - 1)] == word[n - 1]);
        assert(!is_white(t[i]));
        assert(a <= i < a + name.len());
        assert(name.first() == t[a]);
        if a < i {
            assert(is_white(tag[a]));
        }
        assert(a == i);
        assert(i + n - 1 < a + name.len());
        assert forall|j: int| 0 <= j < n implies name.take(n)[j] == word[j] by {
            assert(name[j] == t[i + j]);
        }
        assert(name.take(n) == word);
    }
}

/// Only script and style elements hide text: a tag that begins with `script` or `style` hides what
/// follows, one that begins with `/script` or `/style` shows it, and any other tag leaves it as it
/// was.
pub proof fn law_only_scripts_and_styles_hide(tag: Seq<char>, hidden: bool)
    ensures
        hidden_after(tag, hidden) == if tag_begins(tag, "script"@) || tag_begins(tag, "style"@) {
            true
        } else if tag_begins(tag, "/script"@) || tag_begins(tag, "/style"@) {
            false
        } else {
            hidden
        },
{
    reveal_strlit("script");
    reveal_strlit("style");
    reveal_strlit("/script");
    reveal_strlit("/style");
    lemma_tag_begins(tag, "script"@);
    lemma_tag_begins(tag, "style"@);
    lemma_tag_begins(tag, "/script"@);
    lemma_tag_begins(tag, "/style"@);
}

/// Text in ordinary elements is kept: where a tag begins with neither `script` nor `style`, the
/// text of the page is that of the page with a blank in its place.
pub proof fn law_ordinary_tags_keep_the_text_around_them(
    before: Seq<char>,
    tag: Seq<char>,
    after: Seq<char>,
)
    requires
        !before.contains('<'),
        !tag.contains('>'),
        !tag_begins(tag, "script"@),
        !tag_begins(tag, "style"@),
    ensures
        page_text(before + (seq!['<'] + tag + seq!['>'] + after)) == page_text(
            before + (seq![' '] + after),
        ),
{
    lemma_find_from(before, 0, '<');
    law_only_scripts_and_styles_hide(tag, false);
    law_a_tag_reads_as_a_blank(before, tag, after);
}

/// What a script or style holds is left out: the element reads as a blank.
pub proof fn law_scripts_and_styles_are_left_out(
    before: Seq<char>,
    opening: Seq<char>,
    inside: Seq<char>,
    closing: Seq<char>,
    after: Seq<char>,
)
    requires
        !before.contains('<'),
        !inside.contains('<'),
        !opening.contains('>'),
        !closing.contains('>'),
        tag_begins(opening, "script"@) || tag_begins(opening, "style"@),
        tag_begins(closing, "/script"@) || tag_begins(closing, "/style"@),
    ensures
        page_text(
            before + (seq!['<'] + opening + seq!['>'] + (inside + (seq!['<'] + closing + seq!['>']
                + after))),
        ) == page_text(before + (seq![' '] + after)),
{
    lemma_find_from(before, 0, '<');
    lemma_find_from(inside, 0, '<');
    law_only_scripts_and_styles_hide(opening, false);
    law_only_scripts_and_styles_hide(closing, true);
    lemma_slash_is_no_letter(closing, "script"@, "/script"@);
    lemma_slash_is_no_letter(closing, "script"@, "/style"@);
    lemma_slash_is_no_letter(closing, "style"@, "/script"@);
    lemma_slash_is_no_letter(closing, "style"@, "/style"@);
    law_a_script_or_style_reads_as_a_blank(before, opening, inside, closing, after);
}

proof fn lemma_slash_is_no_letter(tag: Seq<char>, word: Seq<char>, closing: Seq<char>)
    requires
        word == "script"@ || word == "style"@,
        closing == "/script"@ || closing == "/style"@,
    ensures
        !(tag_begins(tag, word) && tag_begins(tag, closing)),
{
    reveal_strlit("script");
    reveal_strlit("style");
    reveal_strlit("/script");
    reveal_strlit("/style");
    if tag_begins(tag, word) && tag_begins(tag, closing) {
        let i = choose|i: int| #[trigger] tag_begins_at(tag, word, i);
        let k = choose|k: int| #[trigger] tag_begins_at(tag, closing, k);
        assert(is_letter(tag[i + 0], word[0]));
        assert(is_letter(tag[k + 0], closing[0]));
        assert(!is_white(tag[i]));
        assert(!is_white(tag[k]));
        if i < k {
            assert(is_white(tag[i]));
        } else if k < i {
            assert(is_white(tag[k]));
        }
        assert(false);
    }
}

/// A page without tags reads as its text with the entities decoded and the white space collapsed.
pub proof fn law_untagged_pages_are_decoded(s: Seq<char>)
    requires
        !s.contains('<'),
    ensures
        page_text(s) == joined(words(decoded(s)), seq![' ']),
{
    reveal_strlit(" ");
    lemma_find_from(s, 0, '<');
    assert(visible(s, false) == s);
    assert(" "@ == seq![' ']);
}

spec fn entity(k: int) -> Seq<char> {
    if k == 0 {
        "&amp;"@
    } else if k == 1 {
        "&lt;"@
    } else if k == 2 {
        "&gt;"@
    } else if k == 3 {
        "&nbsp;"@
    } else if k == 4 {
        "&#39;"@
    } else {
        "&quot;"@
    }
}

spec fn entity_char(k: int) -> Seq<char> {
    if k == 0 {
        "&"@
    } else if k == 1 {
        "<"@
    } else if k == 2 {
        ">"@
    } else if k == 3 {
        " "@
    } else if k == 4 {
        "'"@
    } else {
        "\""@
    }
}

/// `s` after the entities from `k` on are decoded.
spec fn decoded_from(s: Seq<char>, k: int) -> Seq<char>
    decreases 6 - k,
{
    if k >= 6 || k < 0 {
        s
    } else {
        decoded_from(replaced(s, entity(k), entity_char(k)), k + 1)
    }
}

proof fn lemma_entity(k: int)
    requires
        0 <= k < 6,
    ensures
        entity(k).len() >= 4,
        entity(k)[0] == '&',
        forall|j: int| 1 <= j < entity(k).len() ==> #[trigger] entity(k)[j] != '&',
        entity_char(k).len() == 1,
        k == 0 ==> entity(k)[1] == 'a' && entity_char(k)[0] == '&',
        k == 1 ==> entity(k)[1] == 'l' && entity_char(k)[0] == '<',
        k == 2 ==> entity(k)[1] == 'g' && entity_char(k)[0] == '>',
        k == 3 ==> entity(k)[1] == 'n' && entity_char(k)[0] == ' ',
        k == 4 ==> entity(k)[1] == '#' && entity_char(k)[0] == '\'',
        k == 5 ==> entity(k)[1] == 'q' && entity_char(k)[0] == '"',
{
    reveal_strlit("&amp;");
    reveal_strlit("&lt;");
    reveal_strlit("&gt;");
    reveal_strlit("&nbsp;");
    reveal_strlit("&#39;");
    reveal_strlit("&quot;");
    reveal_strlit("&");
    reveal_strlit("<");
    reveal_strlit(">");
    reveal_strlit(" ");
    reveal_strlit("'");
    reveal_strlit("\"");
}

proof fn lemma_decoded_from(s: Seq<char>)
    ensures
        decoded(s) == decoded_from(s, 0),
{
    reveal_with_fuel(decoded_from, 7);
}

proof fn lemma_replaced_after(a: Seq<char>, x: Seq<char>, pat: Seq<char>, rep: Seq<char>)
    requires
        pat.len() > 0,
        !a.contains(pat[0]),
    ensures
        replaced(a + x, pat, rep) == a + replaced(x, pat, rep),
    decreases a.len(),
{
    if a.len() == 0 {
        assert(a + x == x);
        assert(a + replaced(x, pat, rep) == replaced(x, pat, rep));
    } else {
        let s = a + x;
        assert(a[0] != pat[0]);
        if begins_with(s, pat) {
            assert(s.take(pat.len() as int)[0] == s[0]);
        }
        let rest = a.skip(1);
        assert forall|i: int| 0 <= i < rest.len() implies rest[i] != pat[0] by {
            assert(a[i + 1] != pat[0]);
        }
        lemma_replaced_after(rest, x, pat, rep);
        assert(s.skip(1) == rest + x);
        assert(seq![a[0]] + (rest + replaced(x, pat, rep)) == a + replaced(x, pat, rep));
    }
}

/// Decoding from `k` on passes over text without an ampersand.
proof fn lemma_decoding_passes(a: Seq<char>, x: Seq<char>, k: int)
    requires
        0 <= k <= 6,
        !a.contains('&'),
    ensures
        decoded_from(a + x, k) == a + decoded_from(x, k),
    decreases 6 - k,
{
    if k < 6 {
        lemma_entity(k);
        lemma_replaced_after(a, x, entity(k), entity_char(k));
        lemma_decoding_passes(a, replaced(x, entity(k), entity_char(k)), k + 1);
    }
}

/// Decoding from `k` on turns the entity `e` into its character and goes on after it.
proof fn lemma_decoding_an_entity(e: int, x: Seq<char>, k: int)
    requires
        0 <= k <= e < 6,
        e > 0,
    ensures
        decoded_from(entity(e) + x, k) == entity_char(e) + decoded_from(x, k),
    decreases 6 - k,
{
    lemma_entity(k);
    lemma_entity(e);
    let s = entity(e) + x;
    let rep = entity_char(k);
    let rest = replaced(x, entity(k), rep);
    if k == e {
        assert(s.take(entity(k).len() as int) == entity(k));
        assert(s.skip(entity(k).len() as int) == x);
        assert(!rep.contains('&'));
        lemma_decoding_passes(rep, rest, k + 1);
    } else {
        assert(s[1] == entity(e)[1]);
        if begins_with(s, entity(k)) {
            assert(s.take(entity(k).len() as int)[1] == s[1]);
        }
        let tail = entity(e).skip(1);
        assert forall|i: int| 0 <= i < tail.len() implies tail[i] != '&' by {
            assert(entity(e)[i + 1] != '&');
        }
        lemma_replaced_after(tail, x, entity(k), rep);
        assert(s.skip(1) == tail + x);
        assert(seq![s[0]] + (tail + rest) == entity(e) + rest);
        lemma_decoding_an_entity(e, rest, k + 1);
    }
}

/// Entities are decoded where they stand: what comes before one, if it holds no ampersand, and what
/// comes after it are decoded each on its own.
pub proof fn law_entities_are_decoded(a: Seq<char>, b: Seq<char>)
    requires
        !a.contains('&'),
    ensures
        decoded(a + ("&lt;"@ + b)) == a + (seq!['<'] + decoded(b)),
        decoded(a + ("&gt;"@ + b)) == a + (seq!['>'] + decoded(b)),
        decoded(a + ("&nbsp;"@ + b)) == a + (seq![' '] + decoded(b)),
        decoded(a + ("&#39;"@ + b)) == a + (seq!['\''] + decoded(b)),
        decoded(a + ("&quot;"@ + b)) == a + (seq!['"'] + decoded(b)),
{
    lemma_entity(1);
    lemma_entity(2);
    lemma_entity(3);
    lemma_entity(4);
    lemma_entity(5);
    lemma_decoded_entity(a, 1, b);
    lemma_decoded_entity(a, 2, b);
    lemma_decoded_entity(a, 3, b);
    lemma_decoded_entity(a, 4, b);
    lemma_decoded_entity(a, 5, b);
}

proof fn lemma_decoded_entity(a: Seq<char>, e: int, b: Seq<char>)
    requires
        !a.contains('&'),
        0 < e < 6,
    ensures
        decoded(a + (entity(e) + b)) == a + (seq![entity_char(e)[0]] + decoded(b)),
{
    lemma_entity(e);
    lemma_decoded_from(b);
    lemma_decoded_from(a + (entity(e) + b));
    lemma_decoding_passes(a, entity(e) + b, 0);
    lemma_decoding_an_entity(e, b, 0);
    assert(entity_char(e) == seq![entity_char(e)[0]]);
}

/// An ampersand that begins no entity stays as decoding goes on after it.
proof fn lemma_decoding_an_ampersand(x: Seq<char>, k: int)
    requires
        0 < k <= 6,
        x.len() > 0 ==> x[0] != 'l' && x[0] != 'g' && x[0] != 'n' && x[0] != '#' && x[0] != 'q',
    ensures
        decoded_from(seq!['&'] + x, k) == seq!['&'] + decoded_from(x, k),
    decreases 6 - k,
{
    if k < 6 {
        lemma_entity(k);
        let s = seq!['&'] + x;
        let rest = replaced(x, entity(k), entity_char(k));
        if begins_with(s, entity(k)) {
            assert(s.take(entity(k).len() as int)[1] == s[1]);
        }
        assert(s.skip(1) == x);
        assert(rest.len() > 0 ==> rest[0] == x[0] || rest[0] == entity_char(k)[0]);
        lemma_decoding_an_ampersand(rest, k + 1);
    }
}

/// An ampersand that is written as an entity is decoded, and what follows it is decoded on its own,
/// unless the two of them look like another entity.
pub proof fn law_ampersands_are_decoded(a: Seq<char>, b: Seq<char>)
    requires
        !a.contains('&'),
        b.len() > 0 ==> b[0] != 'l' && b[0] != 'g' && b[0] != 'n' && b[0] != '#' && b[0] != 'q',
    ensures
        decoded(a + ("&amp;"@ + b)) == a + (seq!['&'] + decoded(b)),
{
    lemma_entity(0);
    let s = "&amp;"@ + b;
    let rest = replaced(b, entity(0), entity_char(0));
    lemma_decoded_from(b);
    lemma_decoded_from(a + s);
    lemma_decoding_passes(a, s, 0);
    assert(s.take(5) == "&amp;"@) by {
        reveal_strlit("&amp;");
    }
    assert(s.skip(entity(0).len() as int) == b);
    assert(s.take(entity(0).len() as int) == entity(0));
    assert(entity_char(0) == seq!['&']);
    assert(replaced(s, entity(0), entity_char(0)) == seq!['&'] + rest);
    assert(rest.len() > 0 ==> rest[0] == b[0] || rest[0] == '&');
    lemma_decoding_an_ampersand(rest, 1);
}

/// Text without an ampersand holds no entity and stays as it is.
pub proof fn law_text_without_ampersands_stays(s: Seq<char>)
    requires
        !s.contains('&'),
    ensures
        decoded(s) == s,
{
    lemma_decoded_from(s);
    lemma_decoding_passes(s, Seq::<char>::empty(), 0);
    assert(s + Seq::<char>::empty() == s);
    lemma_decoded_from(Seq::<char>::empty());
    reveal_with_fuel(decoded_from, 7);
    assert(decoded_from(Seq::<char>::empty(), 0) == Seq::<char>::empty());
}

} // verus!
