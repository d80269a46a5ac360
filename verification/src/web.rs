//! The tools with which an agent reads the web: fetching a page and searching.

use vstd::prelude::*;
use crate::html::{page_text, strip_html_tags};
use crate::http::{bad_body, result_view};
use crate::json::{parse_bytes, read_bytes, tree_of, Json, JsonTree};
use crate::text::{
    begins_with, chars_of, decimal, decimal_of, finishes_with, join, joined,
    law_decimal_reads_back, number_in, string_of, views,
};
use crate::tools::{
    announce, announced, emit_tool_event, fail_silently, silent_failure, tool_event, ToolReply,
    ToolReplyView,
};

verus! {

// ---------------------------------------------------------------------------------------------
// Fetching
// ---------------------------------------------------------------------------------------------

/// How many characters of a page an agent gets to read.
pub const EXCERPT: usize = 3000;

/// The note on how many characters are left.
pub open spec fn note(left: nat) -> Seq<char> {
    "... [truncated — "@ + decimal(left)
        + " chars remaining. Call web_fetch again on a more specific URL if you need more.]"@
}

/// What an agent gets to read of a text: all of it, or its beginning and a note on how much is
/// left.
pub open spec fn excerpt(text: Seq<char>) -> Seq<char> {
    if text.len() > EXCERPT {
        text.take(EXCERPT as int) + note((text.len() - EXCERPT) as nat)
    } else {
        text
    }
}

/// What an agent gets to read of a text.
pub fn cut(text: &str) -> (s: String)
    ensures
        s@ == excerpt(text@),
{
    let cs = chars_of(text);
    if cs.len() <= EXCERPT {
        return text.to_owned();
    }
    let mut s = string_of(&cs, 0, EXCERPT);
    s.append("... [truncated — ");
    s.append(decimal_of((cs.len() - EXCERPT) as u64).as_str());
    s.append(" chars remaining. Call web_fetch again on a more specific URL if you need more.]");
    assert(s@ == text@.take(EXCERPT as int) + note((text@.len() - EXCERPT) as nat));
    s
}

/// The reply of the tool that fetches a page: an excerpt of its text. Only the length of the
/// excerpt is announced.
pub open spec fn fetched(url: Seq<char>, page: Result<Seq<char>, Seq<char>>) -> ToolReplyView {
    match page {
        Ok(html) => {
            let text = excerpt(page_text(html));
            ToolReplyView {
                event: Some(
                    tool_event(
                        "web_fetch"@,
                        url,
                        "done"@,
                        Some(decimal(text.len()) + " chars"@),
                    ),
                ),
                result: Ok(text),
            }
        },
        Err(e) => silent_failure(e),
    }
}

/// The reply of the tool that fetches a page, from the page or from what kept it from coming.
pub fn web_fetch(url: &str, page: Result<String, String>) -> (r: ToolReply)
    ensures
        r@ == fetched(url@, result_view(page)),
{
    match page {
        Ok(html) => {
            let text = strip_html_tags(html.as_str());
            let text = cut(text.as_str());
            let len = chars_of(text.as_str()).len();
            let mut note = decimal_of(len as u64);
            note.append(" chars");
            ToolReply {
                event: Some(emit_tool_event("web_fetch", url, "done", Some(note.as_str()))),
                result: Ok(text),
            }
        },
        Err(e) => fail_silently(e),
    }
}

// ---------------------------------------------------------------------------------------------
// Searching
// ---------------------------------------------------------------------------------------------

/// The text in a member of a result, or what stands for it.
pub open spec fn field_or(result: JsonTree, key: Seq<char>, otherwise: Seq<char>) -> Seq<char> {
    match result.member_text(key) {
        Some(s) => s,
        None => otherwise,
    }
}

/// The entry of the `i`-th result, counted from zero: number, title, address, description.
pub open spec fn entry(i: nat, result: JsonTree) -> Seq<char> {
    decimal(i + 1) + ". "@ + field_or(result, "title"@, "(no title)"@) + " ("@ + field_or(
        result,
        "url"@,
        ""@,
    ) + ")\n   "@ + field_or(result, "description"@, ""@)
}

/// The entries of the results.
pub open spec fn entries(results: Seq<JsonTree>) -> Seq<Seq<char>> {
    Seq::new(results.len(), |i: int| entry(i as nat, results[i]))
}

/// The results in an answer: the list at `web.results`.
pub open spec fn results_in(answer: JsonTree) -> Option<Seq<JsonTree>> {
    match answer.member("web"@) {
        Some(web) => match web.member("results"@) {
            Some(JsonTree::List(items)) => Some(items),
            _ => None,
        },
        None => None,
    }
}

/// The results of a search, for the agent to read.
pub open spec fn listing(answer: JsonTree) -> Seq<char> {
    match results_in(answer) {
        Some(items) => if items.len() > 0 {
            joined(entries(items), "\n\n"@)
        } else {
            "No results found."@
        },
        None => "No results found."@,
    }
}

fn text_or(result: &Json, key: &str, otherwise: &str) -> (s: String)
    ensures
        s@ == field_or(result@, key@, otherwise@),
{
    match result.member_text(key) {
        Some(s) => s,
        None => otherwise.to_owned(),
    }
}

fn entry_text(i: usize, result: &Json) -> (s: String)
    requires
        i < usize::MAX,
    ensures
        s@ == entry(i as nat, result@),
{
    let mut s = decimal_of((i + 1) as u64);
    s.append(". ");
    s.append(text_or(result, "title", "(no title)").as_str());
    s.append(" (");
    s.append(text_or(result, "url", "").as_str());
    s.append(")\n   ");
    s.append(text_or(result, "description", "").as_str());
    s
}

/// The results of a search, for the agent to read.
pub fn list_results(answer: &Json) -> (s: String)
    ensures
        s@ == listing(answer@),
{
    let results = match answer.member("web") {
        Some(web) => web.member("results"),
        None => None,
    };
    if let Some(results) = results {
        if let Json::List(items) = results {
            let ghost trees = results@->List_0;
            assert(results_in(answer@) == Some(trees));
            let mut found: Vec<String> = Vec::new();
            let mut i: usize = 0;
            while i < items.len()
                invariant
                    i <= items@.len() == trees.len(),
                    forall|k: int| 0 <= k < trees.len() ==> trees[k] == #[trigger] items@[k]@,
                    views(found@) == entries(trees).take(i as int),
                decreases items@.len() - i,
            {
                let ghost before = found@;
                found.push(entry_text(i, &items[i]));
                assert(views(found@) == views(before).push(entries(trees)[i as int]));
                assert(entries(trees).take(i + 1) == entries(trees).take(i as int).push(
                    entries(trees)[i as int],
                ));
                i = i + 1;
            }
            assert(entries(trees).take(i as int) == entries(trees));
            if found.len() > 0 {
                return join(&found, "\n\n");
            }
        }
    }
    "No results found.".to_owned()
}

/// The key for the search service, which the environment may hold.
pub fn search_key(key: Option<String>) -> (r: Result<String, String>)
    ensures
        result_view(r) == match key {
            Some(k) => Ok::<Seq<char>, Seq<char>>(k@),
            None => Err("BRAVE_API_KEY not set. Add it to .env to enable web search."@),
        },
{
    match key {
        Some(k) => Ok(k),
        None => Err("BRAVE_API_KEY not set. Add it to .env to enable web search.".to_owned()),
    }
}

/// The models of pairs of strings.
pub open spec fn pair_views(pairs: Seq<(String, String)>) -> Seq<(Seq<char>, Seq<char>)> {
    pairs.map_values(|p: (String, String)| (p.0@, p.1@))
}

/// The parameters of a search: the query, and that five results are wanted.
pub open spec fn search_fields(query: Seq<char>) -> Seq<(Seq<char>, Seq<char>)> {
    seq![("q"@, query), ("count"@, "5"@)]
}

/// The parameters of a search.
pub fn search_params(query: &str) -> (params: Vec<(String, String)>)
    ensures
        pair_views(params@) == search_fields(query@),
{
    let mut params: Vec<(String, String)> = Vec::new();
    params.push(("q".to_owned(), query.to_owned()));
    params.push(("count".to_owned(), "5".to_owned()));
    assert(pair_views(params@) == search_fields(query@));
    params
}

/// The headers of a search: that the answer is to be JSON, and the key for the service.
pub open spec fn header_fields(key: Seq<char>) -> Seq<(Seq<char>, Seq<char>)> {
    seq![("Accept"@, "application/json"@), ("X-Subscription-Token"@, key)]
}

/// The headers of a search.
pub fn search_headers(key: &str) -> (headers: Vec<(String, String)>)
    ensures
        pair_views(headers@) == header_fields(key@),
{
    let mut headers: Vec<(String, String)> = Vec::new();
    headers.push(("Accept".to_owned(), "application/json".to_owned()));
    headers.push(("X-Subscription-Token".to_owned(), key.to_owned()));
    assert(pair_views(headers@) == header_fields(key@));
    headers
}

/// The reply of the tool that searches, for an answer that was read.
pub fn search_reply(query: &str, answer: Option<Json>) -> (r: ToolReply)
    ensures
        r@ == match tree_of(answer) {
            Some(tree) => announced("web_search"@, query@, Ok(listing(tree))),
            None => silent_failure(bad_body()),
        },
{
    match answer {
        Some(json) => announce("web_search", query, Ok(list_results(&json))),
        None => fail_silently("error decoding response body".to_owned()),
    }
}

/// The reply of the tool that searches, from the answer of the service, whatever its status, or
/// from what kept it from coming.
pub fn web_search(query: &str, answer: Result<Vec<u8>, String>) -> (r: ToolReply)
    ensures
        r@ == match answer {
            Ok(bytes) => match read_bytes(bytes@) {
                Some(tree) => announced("web_search"@, query@, Ok(listing(tree))),
                None => silent_failure(bad_body()),
            },
            Err(e) => silent_failure(e@),
        },
{
    match answer {
        Ok(bytes) => search_reply(query, parse_bytes(bytes.as_slice())),
        Err(e) => fail_silently(e),
    }
}

// ---------------------------------------------------------------------------------------------
// Laws
// ---------------------------------------------------------------------------------------------

/// A long page is capped and says so: the agent reads as many of its first characters as there are
/// to read, and then how many are left. A page that is not longer is read whole.
pub proof fn law_long_pages_are_capped_and_say_so(text: Seq<char>)
    ensures
        text.len() > EXCERPT ==> begins_with(excerpt(text), text.take(EXCERPT as int))
            && finishes_with(excerpt(text), note((text.len() - EXCERPT) as nat))
            && excerpt(text).len() == EXCERPT + note((text.len() - EXCERPT) as nat).len(),
        text.len() <= EXCERPT ==> excerpt(text) == text,
{
    if text.len() > EXCERPT {
        let tail = note((text.len() - EXCERPT) as nat);
        let all = excerpt(text);
        assert(all.take(EXCERPT as int) == text.take(EXCERPT as int));
        assert(all.skip(all.len() - tail.len()) == tail);
    }
}

/// An entry shows the number of the result, its title, its address and its description, each of
/// them whole.
pub proof fn law_an_entry_shows_the_result(
    i: nat,
    result: JsonTree,
    title: Seq<char>,
    url: Seq<char>,
    description: Seq<char>,
)
    requires
        result.member("title"@) == Some(JsonTree::Text(title)),
        result.member("url"@) == Some(JsonTree::Text(url)),
        result.member("description"@) == Some(JsonTree::Text(description)),
    ensures
        entry(i, result) == decimal(i + 1) + (seq!['.', ' '] + title) + (seq![' ', '('] + url)
            + (seq![')', '\n', ' ', ' ', ' '] + description),
{
    reveal_strlit(". ");
    reveal_strlit(" (");
    reveal_strlit(")\n   ");
    assert(entry(i, result) == decimal(i + 1) + (seq!['.', ' '] + title) + (seq![' ', '('] + url)
        + (seq![')', '\n', ' ', ' ', ' '] + description));
}

/// The text in a value that may be missing, or what stands for it.
pub open spec fn text_in(value: Option<JsonTree>, otherwise: Seq<char>) -> Seq<char> {
    match value {
        Some(JsonTree::Text(s)) => s,
        _ => otherwise,
    }
}

/// Each field of a result is shown on its own: where one is missing or no text, nothing stands in
/// its place, or, for the title, that there is none.
pub proof fn law_each_field_is_shown_on_its_own(i: nat, result: JsonTree)
    ensures
        entry(i, result) == decimal(i + 1) + (seq!['.', ' '] + text_in(
            result.member("title"@),
            "(no title)"@,
        )) + (seq![' ', '('] + text_in(result.member("url"@), seq![])) + (seq![
            ')',
            '\n',
            ' ',
            ' ',
            ' ',
        ] + text_in(result.member("description"@), seq![])),
{
    reveal_strlit(". ");
    reveal_strlit(" (");
    reveal_strlit(")\n   ");
    reveal_strlit("");
    assert(""@ == Seq::<char>::empty());
    let title = text_in(result.member("title"@), "(no title)"@);
    let url = text_in(result.member("url"@), seq![]);
    let description = text_in(result.member("description"@), seq![]);
    assert(entry(i, result) == decimal(i + 1) + (seq!['.', ' '] + title) + (seq![' ', '('] + url)
        + (seq![')', '\n', ' ', ' ', ' '] + description));
}

/// Every result is listed, in order and with a blank line between two of them; an answer without
/// results says so.
pub proof fn law_every_result_is_listed(
    answer: JsonTree,
    web: JsonTree,
    results: Seq<JsonTree>,
    k: int,
)
    requires
        answer.member("web"@) == Some(web),
        web.member("results"@) == Some(JsonTree::List(results)),
    ensures
        entries(results).len() == results.len(),
        0 <= k < results.len() ==> entries(results)[k] == entry(k as nat, results[k]),
        results.len() > 0 ==> listing(answer) == joined(entries(results), seq!['\n', '\n']),
        results.len() == 0 ==> listing(answer) == "No results found."@,
{
    reveal_strlit("\n\n");
    assert("\n\n"@ == seq!['\n', '\n']);
}

/// An answer whose results are missing, or are no list, has none.
pub proof fn law_without_results_nothing_is_listed(answer: JsonTree, web: JsonTree)
    ensures
        answer.member("web"@) is None ==> listing(answer) == "No results found."@,
        answer.member("web"@) == Some(web) && !(web.member("results"@) matches Some(
            JsonTree::List(_),
        )) ==> listing(answer) == "No results found."@,
{
}

/// The note says in decimal how many characters are left.
pub proof fn law_the_note_says_how_many_are_left(left: nat)
    ensures
        ({
            let head = "... [truncated — "@;
            let tail = " chars remaining. Call web_fetch again on a more specific URL if you need more.]"@;
            &&& begins_with(note(left), head)
            &&& finishes_with(note(left), tail)
            &&& number_in(
                note(left).subrange(head.len() as int, note(left).len() - tail.len()),
            ) == left
        }),
{
    let head = "... [truncated — "@;
    let tail = " chars remaining. Call web_fetch again on a more specific URL if you need more.]"@;
    let all = note(left);
    assert(all.take(head.len() as int) == head);
    assert(all.skip(all.len() - tail.len()) == tail);
    assert(all.subrange(head.len() as int, all.len() - tail.len()) == decimal(left));
    law_decimal_reads_back(left);
}

/// A page that was fetched is answered with its excerpt, and its length in characters is announced;
/// of a page that did not come the cause is handed on.
pub proof fn law_what_fetching_answers(url: Seq<char>, html: Seq<char>, cause: Seq<char>)
    ensures
        fetched(url, Ok(html)).result == Ok::<Seq<char>, Seq<char>>(excerpt(page_text(html))),
        fetched(url, Ok(html)).event == Some(
            tool_event(
                "web_fetch"@,
                url,
                "done"@,
                Some(decimal(excerpt(page_text(html)).len()) + " chars"@),
            ),
        ),
        fetched(url, Err(cause)).event is None,
        fetched(url, Err(cause)).result == Err::<Seq<char>, Seq<char>>(cause),
{
}

/// A search asks for five results to the query as it is, with the key as it is.
pub proof fn law_a_search_carries_the_query(query: Seq<char>, key: Seq<char>)
    ensures
        search_fields(query).len() == 2,
        search_fields(query)[0] == ("q"@, query),
        search_fields(query)[1] == ("count"@, "5"@),
        header_fields(key).len() == 2,
        header_fields(key)[0] == ("Accept"@, "application/json"@),
        header_fields(key)[1] == ("X-Subscription-Token"@, key),
{
}

} // verus!
