//! Speech-to-text: what the transcription service answers.

use vstd::prelude::*;
use crate::http::{
    bad_body, concat, law_a_refusal_says_why, refusal, refusal_message, result_view, Reply,
};
use crate::json::{parse_bytes, read_bytes, tree_of, Json, JsonTree};
use crate::text::{finishes_with, lemma_trimmed, trim, trimmed};

verus! {

/// What is sent to the transcription service.
#[derive(Debug, PartialEq)]
pub struct AudioUpload {
    /// The model that listens.
    pub model: String,
    /// The name under which the audio is sent.
    pub file_name: String,
    /// The type of the audio.
    pub mime: String,
    pub audio: Vec<u8>,
}

/// The model of what is sent.
#[verifier::ext_equal]
pub struct AudioUploadView {
    pub model: Seq<char>,
    pub file_name: Seq<char>,
    pub mime: Seq<char>,
    pub audio: Seq<u8>,
}

impl View for AudioUpload {
    type V = AudioUploadView;

    open spec fn view(&self) -> AudioUploadView {
        AudioUploadView {
            model: self.model@,
            file_name: self.file_name@,
            mime: self.mime@,
            audio: self.audio@,
        }
    }
}

/// Audio sent under a name.
pub open spec fn upload(file_name: Seq<char>, audio: Seq<u8>) -> AudioUploadView {
    AudioUploadView { model: "whisper-1"@, file_name, mime: "audio/wav"@, audio }
}

/// What is sent to have a piece of a recording transcribed.
pub fn piece_upload(wav: Vec<u8>) -> (r: AudioUpload)
    ensures
        r@ == upload("chunk.wav"@, wav@),
{
    file_upload("chunk.wav".to_owned(), wav)
}

/// What is sent to have an audio file transcribed.
pub fn file_upload(file_name: String, audio: Vec<u8>) -> (r: AudioUpload)
    ensures
        r@ == upload(file_name@, audio@),
{
    AudioUpload { model: "whisper-1".to_owned(), file_name, mime: "audio/wav".to_owned(), audio }
}

/// The text of an answer without the white space around it; empty where the answer has none.
pub open spec fn heard(answer: JsonTree) -> Seq<char> {
    match answer.member_text("text"@) {
        Some(s) => trimmed(s),
        None => seq![],
    }
}

/// The text of an answer as it is; an error where the answer has none.
pub open spec fn heard_verbatim(answer: JsonTree) -> Result<Seq<char>, Seq<char>> {
    match answer.member_text("text"@) {
        Some(s) => Ok(s),
        None => Err("No 'text' field in API response"@),
    }
}

/// What is said of an exchange that brought no answer.
pub open spec fn exchange_error(reply: Reply<Vec<u8>>) -> Option<Seq<char>> {
    match reply {
        Reply::NotSent(e) => Some("API request failed: "@ + e@),
        Reply::Refused { status, body } => Some(refusal("Whisper"@, status@, body@)),
        Reply::Unread(e) => Some("Failed to parse response: "@ + e@),
        Reply::Received(_) => None,
    }
}

/// What is said of an answer that is not JSON.
pub open spec fn not_json() -> Seq<char> {
    "Failed to parse response: "@ + bad_body()
}

/// The text of an answer that was read, for a piece of a recording.
pub fn transcript_of(answer: Option<Json>) -> (r: Result<String, String>)
    ensures
        result_view(r) == match tree_of(answer) {
            Some(tree) => Ok(heard(tree)),
            None => Err(not_json()),
        },
{
    match answer {
        Some(json) => match json.member_text("text") {
            Some(s) => Ok(trim(s.as_str())),
            None => Ok(String::new()),
        },
        None => Err(concat("Failed to parse response: ", "error decoding response body")),
    }
}

/// The text of an answer that was read, for an audio file.
pub fn file_transcript_of(answer: Option<Json>) -> (r: Result<String, String>)
    ensures
        result_view(r) == match tree_of(answer) {
            Some(tree) => heard_verbatim(tree),
            None => Err(not_json()),
        },
{
    match answer {
        Some(json) => match json.member_text("text") {
            Some(s) => Ok(s),
            None => Err("No 'text' field in API response".to_owned()),
        },
        None => Err(concat("Failed to parse response: ", "error decoding response body")),
    }
}

fn answer_in(reply: Reply<Vec<u8>>) -> (r: Result<Vec<u8>, String>)
    ensures
        match r {
            Ok(bytes) => exchange_error(reply) is None && reply == Reply::Received(bytes),
            Err(e) => exchange_error(reply) == Some(e@),
        },
{
    match reply {
        Reply::NotSent(e) => Err(concat("API request failed: ", e.as_str())),
        Reply::Refused { status, body } => Err(
            refusal_message("Whisper", status.as_str(), body.as_str()),
        ),
        Reply::Unread(e) => Err(concat("Failed to parse response: ", e.as_str())),
        Reply::Received(bytes) => Ok(bytes),
    }
}

/// The text that the service heard in a piece of a recording.
pub fn transcribe_bytes(reply: Reply<Vec<u8>>) -> (r: Result<String, String>)
    ensures
        result_view(r) == match exchange_error(reply) {
            Some(e) => Err(e),
            None => match read_bytes(reply->Received_0@) {
                Some(tree) => Ok(heard(tree)),
                None => Err(not_json()),
            },
        },
{
    match answer_in(reply) {
        Ok(bytes) => transcript_of(parse_bytes(bytes.as_slice())),
        Err(e) => Err(e),
    }
}

/// The content of an audio file, from what came of reading it.
pub fn audio_read(read: Result<Vec<u8>, String>) -> (r: Result<Vec<u8>, String>)
    ensures
        match read {
            Ok(audio) => r == Ok::<Vec<u8>, String>(audio),
            Err(e) => r matches Err(m) && m@ == "Failed to read audio file: "@ + e@,
        },
{
    match read {
        Ok(audio) => Ok(audio),
        Err(e) => Err(concat("Failed to read audio file: ", e.as_str())),
    }
}

/// What was heard in a piece of a recording has no white space at its ends.
pub proof fn law_what_is_heard_is_trimmed(answer: JsonTree)
    ensures
        trimmed(heard(answer)) == heard(answer),
{
    if let Some(s) = answer.member_text("text"@) {
        lemma_trimmed(s);
    }
}

/// The text that the service heard in an audio file.
pub fn transcribe_audio(reply: Reply<Vec<u8>>) -> (r: Result<String, String>)
    ensures
        result_view(r) == match exchange_error(reply) {
            Some(e) => Err(e),
            None => match read_bytes(reply->Received_0@) {
                Some(tree) => heard_verbatim(tree),
                None => Err(not_json()),
            },
        },
{
    match answer_in(reply) {
        Ok(bytes) => file_transcript_of(parse_bytes(bytes.as_slice())),
        Err(e) => Err(e),
    }
}

/// What was heard is what the service says it heard, whole: for a piece without the white space
/// around it, for a file as it is.
pub proof fn law_the_text_is_what_was_heard(answer: JsonTree, text: Seq<char>)
    requires
        answer.member("text"@) == Some(JsonTree::Text(text)),
    ensures
        heard(answer) == trimmed(text),
        heard_verbatim(answer) == Ok::<Seq<char>, Seq<char>>(text),
{
}

/// An answer whose text is missing, or is no text, is silence in a piece and an error in a file.
pub proof fn law_without_a_text_nothing_was_heard(answer: JsonTree)
    requires
        !(answer.member("text"@) matches Some(JsonTree::Text(_))),
    ensures
        heard(answer).len() == 0,
        heard_verbatim(answer) is Err,
{
}

/// What is said of an exchange that failed ends with its cause, and of one that brought an answer
/// nothing is said.
pub proof fn law_causes_are_kept(reply: Reply<Vec<u8>>)
    ensures
        match reply {
            Reply::Received(_) => exchange_error(reply) is None,
            Reply::NotSent(e) | Reply::Unread(e) => exchange_error(reply) matches Some(m)
                && finishes_with(m, e@),
            Reply::Refused { status, body } => exchange_error(reply) matches Some(m)
                && finishes_with(m, seq!['('] + status@ + seq![')', ':', ' '] + body@),
        },
{
    match reply {
        Reply::Received(_) => {},
        Reply::NotSent(e) => {
            let m = "API request failed: "@ + e@;
            assert(m.skip(m.len() - e@.len()) == e@);
        },
        Reply::Unread(e) => {
            let m = "Failed to parse response: "@ + e@;
            assert(m.skip(m.len() - e@.len()) == e@);
        },
        Reply::Refused { status, body } => {
            law_a_refusal_says_why("Whisper"@, status@, body@);
        },
    }
}

/// The audio is sent whole, under its name, as WAV, to the model that listens.
pub proof fn law_the_audio_is_sent_whole(file_name: Seq<char>, audio: Seq<u8>)
    ensures
        upload(file_name, audio).audio == audio,
        upload(file_name, audio).file_name == file_name,
        upload(file_name, audio).mime == "audio/wav"@,
        upload(file_name, audio).model == "whisper-1"@,
{
}

} // verus!
