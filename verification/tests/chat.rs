use glidewin::chat::{chat_request, delta_content, event_token, stream_alive, TokenStream};
use glidewin::http::{openai_key, Reply};
use glidewin::json::{parse_text, text, Json};

fn event(token: &str) -> String {
    format!("data: {{\"choices\":[{{\"delta\":{{\"content\":\"{}\"}}}}]}}\n", token)
}

#[test]
fn asks_with_the_screenshot_and_the_words() {
    let object = |members: Vec<(&str, Json)>| {
        Json::Object(members.into_iter().map(|(k, v)| (k.to_string(), v)).collect())
    };
    let expected = object(vec![
        ("model", text("gpt-4o")),
        (
            "messages",
            Json::List(vec![object(vec![
                ("role", text("user")),
                (
                    "content",
                    Json::List(vec![
                        object(vec![
                            ("type", text("image_url")),
                            ("image_url", object(vec![("url", text("data:image/png;base64,Zm9v"))])),
                        ]),
                        object(vec![("type", text("text")), ("text", text("what is this?"))]),
                    ]),
                ),
            ])]),
        ),
        ("max_tokens", Json::Number("1024".to_string())),
        ("stream", Json::Bool(true)),
    ]);
    assert_eq!(chat_request(b"foo", "what is this?"), expected);
}

#[test]
fn a_stream_goes_on_unless_something_fails() {
    assert_eq!(stream_alive(Reply::Received(())), Ok(()));
    assert_eq!(
        stream_alive(Reply::NotSent("no route".to_string())),
        Err("API request failed: no route".to_string())
    );
    assert_eq!(
        stream_alive(Reply::Refused { status: "401 Unauthorized".to_string(), body: "{}".to_string() }),
        Err("GPT API error (401 Unauthorized): {}".to_string())
    );
    assert_eq!(
        stream_alive(Reply::Unread("reset".to_string())),
        Err("Stream error: reset".to_string())
    );
}

#[test]
fn the_key_has_to_be_set() {
    assert_eq!(openai_key(Some("k".to_string())), Ok("k".to_string()));
    assert_eq!(openai_key(None), Err("OPENAI_API_KEY environment variable not set".to_string()));
}

#[test]
fn content_is_found_in_the_first_choice() {
    let read = |s: &str| delta_content(&parse_text(s).unwrap());
    assert_eq!(read(r#"{"choices":[{"delta":{"content":"Hi"}}]}"#), Some("Hi".to_string()));
    assert_eq!(read(r#"{"choices":[{"delta":{"content":"a"}},{"delta":{"content":"b"}}]}"#), Some("a".to_string()));
    assert_eq!(read(r#"{"choices":[]}"#), None);
    assert_eq!(read(r#"{"choices":[{"delta":{}}]}"#), None);
    assert_eq!(read(r#"{"choices":[{"delta":{"content":null}}]}"#), None);
    assert_eq!(read(r#"{"choices":[{}]}"#), None);
    assert_eq!(read("[]"), None);
}

#[test]
fn empty_content_is_no_token() {
    assert_eq!(event_token(parse_text(r#"{"choices":[{"delta":{"content":""}}]}"#)), None);
    assert_eq!(event_token(parse_text(r#"{"choices":[{"delta":{"content":"x"}}]}"#)), Some("x".to_string()));
    assert_eq!(event_token(None), None);
}

#[test]
fn tokens_come_in_order() {
    let mut stream = TokenStream::new();
    let bytes = event("Hel") + "\n" + &event("lo");
    let r = stream.feed(bytes.as_bytes());
    assert_eq!(r.tokens, ["Hel", "lo"]);
    assert!(!r.done);
}

#[test]
fn other_lines_say_nothing() {
    let mut stream = TokenStream::new();
    let r = stream.feed(b": comment\nevent: x\ndata:{}\ndata: {oops\ndata: {}\n data: [DONE]\n");
    assert!(r.tokens.is_empty());
    assert!(!r.done);
}

#[test]
fn carriage_returns_before_a_line_break_are_dropped() {
    let mut stream = TokenStream::new();
    let bytes = event("a").replace('\n', "\r\r\n") + "data: [DONE]\r\n";
    let r = stream.feed(bytes.as_bytes());
    assert_eq!(r.tokens, ["a"]);
    assert!(r.done);
}

#[test]
fn nothing_counts_after_the_end() {
    let mut stream = TokenStream::new();
    let bytes = event("a") + "data: [DONE]\n" + &event("b");
    let r = stream.feed(bytes.as_bytes());
    assert_eq!(r.tokens, ["a"]);
    assert!(r.done);
}

#[test]
fn an_open_line_waits() {
    let mut stream = TokenStream::new();
    let bytes = event("a");
    let r = stream.feed(&bytes.as_bytes()[..bytes.len() - 1]);
    assert!(r.tokens.is_empty());
    let r = stream.feed(b"\n");
    assert_eq!(r.tokens, ["a"]);
}

#[test]
fn pieces_do_not_matter() {
    let bytes = event("one ") + &event("two") + "data: [DONE]\n";
    for cut in 0..bytes.len() {
        let mut stream = TokenStream::new();
        let first = stream.feed(&bytes.as_bytes()[..cut]);
        let second = stream.feed(&bytes.as_bytes()[cut..]);
        let all: Vec<String> = first.tokens.into_iter().chain(second.tokens).collect();
        assert_eq!(all, ["one ", "two"]);
        assert!(!first.done);
        assert!(second.done);
    }
}

#[test]
fn a_character_that_is_cut_is_lost() {
    let bytes = event("é");
    let at = bytes.find('é').unwrap() + 1;
    let mut stream = TokenStream::new();
    assert!(stream.feed(&bytes.as_bytes()[..at]).tokens.is_empty());
    let r = stream.feed(&bytes.as_bytes()[at..]);
    assert_eq!(r.tokens, ["\u{fffd}\u{fffd}"]);
}

#[test]
fn characters_can_be_fed_directly() {
    let mut stream = TokenStream::new();
    assert_eq!(stream.feed_text(&event("é漢")).tokens, ["é漢"]);
}

#[test]
fn nothing_follows_the_end() {
    let mut stream = TokenStream::new();
    assert!(stream.feed(b"data: [DONE]\n").done);
    for _ in 0..2 {
        let r = stream.feed(event("late").as_bytes());
        assert!(r.tokens.is_empty());
        assert!(r.done);
    }
}
