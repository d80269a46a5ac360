use glidewin::http::Reply;
use glidewin::json::Json;
use glidewin::speech::{
    playback_result, speech_audio, speech_request, split_sentences, spoken_pieces, PlaybackEnd,
    SpeakAction, SpeakEvent, Speaking,
};

#[test]
fn splits_on_terminators_before_blanks() {
    assert_eq!(split_sentences("Hi there. How are you? Fine!"), ["Hi there.", "How are you?", "Fine!"]);
}

#[test]
fn line_breaks_do_not_split() {
    assert_eq!(split_sentences("Hi.\nBye."), ["Hi.\nBye."]);
    assert_eq!(split_sentences("One.\nTwo! Three?\n"), ["One.\nTwo!", "Three?"]);
}

#[test]
fn terminators_inside_words_do_not_split() {
    assert_eq!(split_sentences("Pi is 3.14 or so. See a.b"), ["Pi is 3.14 or so.", "See a.b"]);
    assert_eq!(split_sentences("Wait... what?!"), ["Wait...", "what?!"]);
    assert_eq!(split_sentences("Tab.\tNo split"), ["Tab.\tNo split"]);
}

#[test]
fn lone_terminators_are_sentences() {
    assert_eq!(split_sentences(". . ?"), [".", ".", "?"]);
}

#[test]
fn blank_text_has_no_sentences() {
    assert!(split_sentences("").is_empty());
    assert!(split_sentences(" \n ").is_empty());
}

#[test]
fn sentences_keep_every_word() {
    let text = "  A b. C?  d!e f.\nlast ";
    let kept: String = split_sentences(text).concat().split_whitespace().collect();
    let all: String = text.split_whitespace().collect();
    assert_eq!(kept, all);
}

#[test]
fn sentences_are_trimmed_and_end_with_a_terminator() {
    let found = split_sentences(" One.  Two?   tail  ");
    assert_eq!(found, ["One.", "Two?", "tail"]);
    for s in &found {
        assert_eq!(s.trim(), s);
        assert!(!s.is_empty());
    }
    for s in &found[..found.len() - 1] {
        assert!(s.ends_with(['.', '!', '?']));
    }
}

#[test]
fn every_sentence_is_spoken() {
    assert_eq!(spoken_pieces("One. Two."), ["One.", "Two."]);
    assert!(spoken_pieces("  ").is_empty());
}

#[test]
fn a_sentence_is_asked_for_as_mp3() {
    let text = |s: &str| Json::Text(s.to_string());
    assert_eq!(
        speech_request("Hello."),
        Json::Object(vec![
            ("model".to_string(), text("tts-1")),
            ("input".to_string(), text("Hello.")),
            ("voice".to_string(), text("alloy")),
            ("response_format".to_string(), text("mp3")),
        ])
    );
}

#[test]
fn audio_comes_from_an_accepted_request() {
    assert_eq!(speech_audio(Reply::Received(vec![1, 2])), Ok(vec![1, 2]));
    assert_eq!(
        speech_audio(Reply::NotSent("offline".to_string())),
        Err("TTS request failed: offline".to_string())
    );
    assert_eq!(
        speech_audio(Reply::Refused { status: "429 Too Many Requests".to_string(), body: "slow".to_string() }),
        Err("TTS API error (429 Too Many Requests): slow".to_string())
    );
    assert_eq!(
        speech_audio(Reply::Unread("cut off".to_string())),
        Err("Failed to read TTS audio: cut off".to_string())
    );
}

#[test]
fn playback_ends_in_one_of_six_ways() {
    let e = || "e".to_string();
    assert_eq!(playback_result(PlaybackEnd::Finished), Ok(()));
    assert_eq!(playback_result(PlaybackEnd::NoOutput(e())), Err("Audio output error: e".to_string()));
    assert_eq!(playback_result(PlaybackEnd::NoSink(e())), Err("Sink error: e".to_string()));
    assert_eq!(playback_result(PlaybackEnd::Undecodable(e())), Err("Decode error: e".to_string()));
    assert_eq!(playback_result(PlaybackEnd::Panicked), Err("Playback thread panicked".to_string()));
    assert_eq!(playback_result(PlaybackEnd::NotJoined(e())), Err("Playback join error: e".to_string()));
}

#[test]
fn sentences_are_not_split_further() {
    for s in split_sentences("v1.2 is out! See a.b.c? Yes.\nNo") {
        assert_eq!(split_sentences(&s), [s.as_str()]);
    }
}

#[test]
fn sentences_are_asked_for_in_order() {
    let mut speaking = Speaking::new("One. Two!");
    assert!(!speaking.is_finished());
    assert_eq!(speaking.step(SpeakEvent::Begun), SpeakAction::Fetch("One.".to_string()));
    assert_eq!(
        speaking.step(SpeakEvent::Fetched(Reply::Received(vec![1]))),
        SpeakAction::Queue(vec![1])
    );
    assert_eq!(speaking.step(SpeakEvent::Queued), SpeakAction::Fetch("Two!".to_string()));
    assert!(speaking.is_finished());
    assert_eq!(
        speaking.step(SpeakEvent::Fetched(Reply::Received(vec![2]))),
        SpeakAction::Queue(vec![2])
    );
    assert_eq!(speaking.step(SpeakEvent::Queued), SpeakAction::Await);
}

#[test]
fn nothing_is_asked_for_after_a_failure() {
    let mut speaking = Speaking::new("One. Two!");
    speaking.step(SpeakEvent::Begun);
    assert_eq!(
        speaking.step(SpeakEvent::Fetched(Reply::NotSent("offline".to_string()))),
        SpeakAction::Fail("TTS request failed: offline".to_string())
    );
    assert_eq!(speaking.step(SpeakEvent::Queued), SpeakAction::Await);

    let mut speaking = Speaking::new("One. Two!");
    speaking.step(SpeakEvent::Begun);
    assert_eq!(
        speaking.step(SpeakEvent::Closed),
        SpeakAction::Fail("Playback thread closed early".to_string())
    );
    assert!(speaking.is_finished());
}

#[test]
fn blank_text_is_finished_at_once() {
    assert!(Speaking::new(" ").is_finished());
}

#[test]
fn texts_are_split_one_after_the_other() {
    let (a, b) = ("One. Two\nmore!", " Three? four");
    let mut parts = split_sentences(a);
    parts.extend(split_sentences(b));
    assert_eq!(split_sentences(&format!("{} {}", a, b)), parts);
}

#[test]
fn joined_sentences_split_again() {
    for text in ["  A b.   C?  d!e f.\nlast ", "", "no end", ". . ?"] {
        let parts = split_sentences(text);
        assert_eq!(split_sentences(&parts.join(" ")), parts);
    }
}
