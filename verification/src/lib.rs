//! The verified core of GlideWin, a voice assistant that lives in a small desktop widget.

pub mod chat;
pub mod conversation;
pub mod html;
pub mod http;
pub mod image;
pub mod json;
pub mod recording;
pub mod skills;
pub mod speech;
pub mod text;
pub mod tools;
pub mod transcription;
pub mod wav;
pub mod web;
pub mod widget;
