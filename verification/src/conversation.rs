//! The conversation with the agent: what a turn sends and what is remembered of it.

use vstd::prelude::*;
use crate::http::concat;
use crate::image::{base64, base64_fits, encode_base64, law_base64_reads_back, unbase64};

verus! {

// ---------------------------------------------------------------------------------------------
// A turn
// ---------------------------------------------------------------------------------------------

/// A part of what the user sends.
#[derive(Debug, PartialEq)]
pub enum UserPart {
    /// A PNG image in base64.
    Image(String),
    Text(String),
}

/// The model of a part.
pub enum UserPartView {
    Image(Seq<char>),
    Text(Seq<char>),
}

impl View for UserPart {
    type V = UserPartView;

    open spec fn view(&self) -> UserPartView {
        match self {
            UserPart::Image(s) => UserPartView::Image(s@),
            UserPart::Text(s) => UserPartView::Text(s@),
        }
    }
}

/// The models of parts.
pub open spec fn part_views(parts: Seq<UserPart>) -> Seq<UserPartView> {
    parts.map_values(|p: UserPart| p@)
}

/// What a turn sends: the screenshot, if there is one, and then the message.
pub open spec fn turn(message: Seq<char>, screenshot: Option<Seq<u8>>) -> Seq<UserPartView> {
    match screenshot {
        Some(image) => seq![UserPartView::Image(base64(image)), UserPartView::Text(message)],
        None => seq![UserPartView::Text(message)],
    }
}

/// What a turn sends.
pub fn user_content(message: &str, screenshot: Option<Vec<u8>>) -> (parts: Vec<UserPart>)
    requires
        screenshot matches Some(image) ==> base64_fits(image@.len()),
    ensures
        part_views(parts@) == turn(
            message@,
            match screenshot {
                Some(image) => Some(image@),
                None => None,
            },
        ),
{
    let mut parts: Vec<UserPart> = Vec::new();
    match screenshot {
        Some(image) => {
            parts.push(UserPart::Image(encode_base64(image.as_slice())));
            parts.push(UserPart::Text(message.to_owned()));
            assert(part_views(parts@) == turn(message@, Some(image@)));
        },
        None => {
            parts.push(UserPart::Text(message.to_owned()));
            assert(part_views(parts@) == turn(message@, None));
        },
    }
    parts
}

/// The screenshot of a turn, from what came of reading its file.
pub fn screenshot_read(read: Result<Vec<u8>, String>) -> (r: Result<Vec<u8>, String>)
    ensures
        match read {
            Ok(image) => r == Ok::<Vec<u8>, String>(image),
            Err(e) => r matches Err(m) && m@ == "Failed to read screenshot: "@ + e@,
        },
{
    match read {
        Ok(image) => Ok(image),
        Err(e) => Err(concat("Failed to read screenshot: ", e.as_str())),
    }
}

// ---------------------------------------------------------------------------------------------
// What is remembered
// ---------------------------------------------------------------------------------------------

/// The messages of a conversation, of whatever kind the agent works with.
pub struct ConversationState<M> {
    messages: Vec<M>,
}

impl<M> View for ConversationState<M> {
    type V = Seq<M>;

    closed spec fn view(&self) -> Seq<M> {
        self.messages@
    }
}

impl<M> ConversationState<M> {
    /// A conversation that has not begun.
    pub fn new() -> (c: ConversationState<M>)
        ensures
            c@ == Seq::<M>::empty(),
    {
        ConversationState { messages: Vec::new() }
    }

    /// The messages so far.
    pub fn history(&self) -> (messages: &Vec<M>)
        ensures
            messages@ == self@,
    {
        &self.messages
    }

    /// Ends a turn: after an answer the conversation is what the agent made of it; after a failure
    /// it is what it was before the turn.
    pub fn finish_turn(&mut self, answer: Result<String, String>, updated: Vec<M>) -> (r: Result<
        String,
        String,
    >)
        ensures
            r == answer,
            final(self)@ == if answer is Ok {
                updated@
            } else {
                old(self)@
            },
    {
        if answer.is_ok() {
            self.messages = updated;
        }
        answer
    }

    /// Forgets the conversation.
    pub fn clear(&mut self)
        ensures
            final(self)@ == Seq::<M>::empty(),
    {
        self.messages.clear();
    }
}

/// The greeting for a name.
pub fn greet(name: &str) -> (s: String)
    ensures
        s@ == "Hello, "@ + name@ + "! You've been greeted from Rust!"@,
{
    let mut s = concat("Hello, ", name);
    s.append("! You've been greeted from Rust!");
    s
}

// ---------------------------------------------------------------------------------------------
// Laws
// ---------------------------------------------------------------------------------------------

/// A turn carries all that the user sends: its last part is the message as it is, and the part
/// before it, if there is a screenshot, is base64 that stands for the screenshot.
pub proof fn law_a_turn_carries_everything(message: Seq<char>, image: Seq<u8>)
    ensures
        turn(message, None) == seq![UserPartView::Text(message)],
        turn(message, Some(image)).len() == 2,
        turn(message, Some(image))[1] == UserPartView::Text(message),
        turn(message, Some(image))[0] matches UserPartView::Image(digits) && unbase64(digits)
            == image,
{
    law_base64_reads_back(image);
}

/// The model of a part holds what the part holds.
pub proof fn law_parts_hold_everything(parts: Seq<UserPart>, k: int)
    requires
        0 <= k < parts.len(),
    ensures
        part_views(parts).len() == parts.len(),
        match parts[k] {
            UserPart::Image(s) => part_views(parts)[k] == UserPartView::Image(s@),
            UserPart::Text(s) => part_views(parts)[k] == UserPartView::Text(s@),
        },
{
}

} // verus!
