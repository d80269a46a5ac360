use glidewin::json::parse_text;
use glidewin::web::{
    cut, list_results, search_headers, search_key, search_params, search_reply, web_fetch,
    web_search,
};

const REST: &str =
    " chars remaining. Call web_fetch again on a more specific URL if you need more.]";

#[test]
fn a_short_page_is_read_whole() {
    let r = web_fetch("u", Ok("<p>Hi</p>".to_string()));
    assert_eq!(r.result, Ok("Hi".to_string()));
    let event = r.event.unwrap();
    assert_eq!(event.member_text("tool"), Some("web_fetch".to_string()));
    assert_eq!(event.member_text("input"), Some("u".to_string()));
    assert_eq!(event.member_text("status"), Some("done".to_string()));
    assert_eq!(event.member_text("output"), Some("2 chars".to_string()));
}

#[test]
fn a_long_page_is_cut() {
    let page = "a".repeat(3500);
    let r = web_fetch("u", Ok(page));
    let expected = format!("{}... [truncated — 500{}", "a".repeat(3000), REST);
    assert_eq!(
        r.event.unwrap().member_text("output"),
        Some(format!("{} chars", expected.chars().count()))
    );
    assert_eq!(r.result, Ok(expected));
}

#[test]
fn the_limit_itself_is_not_cut() {
    assert_eq!(cut(&"b".repeat(3000)), "b".repeat(3000));
    assert_eq!(cut(&"b".repeat(3001)), format!("{}... [truncated — 1{}", "b".repeat(3000), REST));
}

#[test]
fn characters_are_counted() {
    let text = "é".repeat(3000) + "xyz";
    assert_eq!(cut(&text), format!("{}... [truncated — 3{}", "é".repeat(3000), REST));
    assert_eq!(cut(&"漢".repeat(3000)), "漢".repeat(3000));
    assert_eq!(cut("é"), "é");
}

#[test]
fn any_page_can_be_cut() {
    let page = "x".to_string() + &"é".repeat(3600);
    let r = web_fetch("u", Ok(page));
    let expected = format!("x{}... [truncated — 601{}", "é".repeat(2999), REST);
    assert_eq!(
        r.event.unwrap().member_text("output"),
        Some(format!("{} chars", expected.chars().count()))
    );
    assert_eq!(r.result, Ok(expected));
}

#[test]
fn a_page_that_does_not_come_is_an_error() {
    let r = web_fetch("u", Err("timeout".to_string()));
    assert_eq!(r.result, Err("timeout".to_string()));
    assert_eq!(r.event, None);
}

#[test]
fn results_are_numbered() {
    let answer = parse_text(
        r#"{"web":{"results":[
            {"title":"One","url":"https://1","description":"first"},
            {"url":2,"description":null}
        ]}}"#,
    )
    .unwrap();
    assert_eq!(
        list_results(&answer),
        "1. One (https://1)\n   first\n\n2. (no title) ()\n   "
    );
}

#[test]
fn the_tenth_result_has_two_digits() {
    let source = format!("{{\"web\":{{\"results\":[{}{{}}]}}}}", "{},".repeat(9));
    let listed = list_results(&parse_text(&source).unwrap());
    assert!(listed.starts_with("1. (no title) ()\n   \n\n2. "));
    assert!(listed.ends_with("\n\n10. (no title) ()\n   "));
}

#[test]
fn no_results_are_told_as_such() {
    for source in ["{}", "[]", r#"{"web":{}}"#, r#"{"web":{"results":[]}}"#, r#"{"web":{"results":{}}}"#] {
        assert_eq!(list_results(&parse_text(source).unwrap()), "No results found.");
    }
}

#[test]
fn a_search_is_announced() {
    let body = r#"{"web":{"results":[{"title":"T","url":"U","description":"D"}]}}"#;
    let r = web_search("q", Ok(body.as_bytes().to_vec()));
    let expected = "1. T (U)\n   D".to_string();
    assert_eq!(r.result, Ok(expected.clone()));
    let event = r.event.unwrap();
    assert_eq!(event.member_text("tool"), Some("web_search".to_string()));
    assert_eq!(event.member_text("input"), Some("q".to_string()));
    assert_eq!(event.member_text("output"), Some(expected));
}

#[test]
fn a_search_that_fails_is_silent() {
    let r = web_search("q", Err("refused".to_string()));
    assert_eq!(r.result, Err("refused".to_string()));
    assert_eq!(r.event, None);
    let r = web_search("q", Ok(b"<html>".to_vec()));
    assert_eq!(r.result, Err("error decoding response body".to_string()));
    assert_eq!(r.event, None);
    assert_eq!(search_reply("q", None).event, None);
    assert_eq!(search_reply("q", parse_text("{}")).result, Ok("No results found.".to_string()));
}

#[test]
fn the_search_key_has_to_be_set() {
    assert_eq!(search_key(Some("k".to_string())), Ok("k".to_string()));
    assert_eq!(
        search_key(None),
        Err("BRAVE_API_KEY not set. Add it to .env to enable web search.".to_string())
    );
}

#[test]
fn five_results_are_asked_for() {
    let pair = |a: &str, b: &str| (a.to_string(), b.to_string());
    assert_eq!(search_params("rust & verus"), [pair("q", "rust & verus"), pair("count", "5")]);
    assert_eq!(
        search_headers("k"),
        [pair("Accept", "application/json"), pair("X-Subscription-Token", "k")]
    );
}

#[test]
fn the_announced_length_is_in_characters() {
    let r = web_fetch("u", Ok("é漢".to_string()));
    assert_eq!(r.event.unwrap().member_text("output"), Some("2 chars".to_string()));
}
