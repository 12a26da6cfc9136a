//! The decisions of a Telegram-backed S3 gateway's operator tools: the in-chat
//! administration commands and the on-demand consolidation of an object's chunks.

pub mod amount;
pub mod chatbot;
pub mod cli;
pub mod consolidate;
pub mod http;
pub mod json;
pub mod keys;
pub mod names;
pub mod session;
pub mod settings;
pub mod status;
pub mod text;
pub mod trace;
pub mod update;
