use glidewin::http::Reply;
use glidewin::json::{text, Json, Members};
use glidewin::transcription::{
    audio_read, file_transcript_of, file_upload, piece_upload, transcribe_audio, transcribe_bytes,
    transcript_of, AudioUpload,
};

fn received(body: &str) -> Reply<Vec<u8>> {
    Reply::Received(body.as_bytes().to_vec())
}

#[test]
fn a_piece_is_trimmed() {
    assert_eq!(transcribe_bytes(received(r#"{"text":"  hello there \n"}"#)), Ok("hello there".to_string()));
}

#[test]
fn a_piece_without_text_is_empty() {
    assert_eq!(transcribe_bytes(received("{}")), Ok(String::new()));
    assert_eq!(transcribe_bytes(received(r#"{"text":5}"#)), Ok(String::new()));
    assert_eq!(transcribe_bytes(received("[]")), Ok(String::new()));
}

#[test]
fn a_file_is_taken_word_for_word() {
    assert_eq!(transcribe_audio(received(r#"{"text":" hi "}"#)), Ok(" hi ".to_string()));
}

#[test]
fn a_file_without_text_is_an_error() {
    let missing = Err("No 'text' field in API response".to_string());
    assert_eq!(transcribe_audio(received("{}")), missing);
    assert_eq!(transcribe_audio(received(r#"{"text":null}"#)), missing);
}

#[test]
fn failed_exchanges_are_reported() {
    for transcribe in [transcribe_bytes, transcribe_audio] {
        assert_eq!(
            transcribe(Reply::NotSent("down".to_string())),
            Err("API request failed: down".to_string())
        );
        assert_eq!(
            transcribe(Reply::Refused { status: "500 Internal Server Error".to_string(), body: "x".to_string() }),
            Err("Whisper API error (500 Internal Server Error): x".to_string())
        );
        assert_eq!(
            transcribe(Reply::Unread("cut".to_string())),
            Err("Failed to parse response: cut".to_string())
        );
        assert_eq!(
            transcribe(received("not json")),
            Err("Failed to parse response: error decoding response body".to_string())
        );
    }
}

#[test]
fn answers_that_were_read() {
    let answer = || Some(Members::new().with("text", text(" a ")).object());
    assert_eq!(transcript_of(answer()), Ok("a".to_string()));
    assert_eq!(file_transcript_of(answer()), Ok(" a ".to_string()));
    assert_eq!(transcript_of(Some(Json::Null)), Ok(String::new()));
    assert!(file_transcript_of(Some(Json::Null)).is_err());
    assert!(transcript_of(None).is_err());
    assert!(file_transcript_of(None).is_err());
}

#[test]
fn audio_files_have_to_be_readable() {
    assert_eq!(audio_read(Ok(vec![1])), Ok(vec![1]));
    assert_eq!(
        audio_read(Err("gone".to_string())),
        Err("Failed to read audio file: gone".to_string())
    );
}

#[test]
fn audio_is_sent_as_wav() {
    let expected = |file_name: &str| AudioUpload {
        model: "whisper-1".to_string(),
        file_name: file_name.to_string(),
        mime: "audio/wav".to_string(),
        audio: vec![1, 2],
    };
    assert_eq!(piece_upload(vec![1, 2]), expected("chunk.wav"));
    assert_eq!(file_upload("a.wav".to_string(), vec![1, 2]), expected("a.wav"));
}
