//! Decisions of a Telegram bot that tells a sender when a link, a forward
//! or a picture was already posted in the chat.

pub mod command;
pub mod dedup;
pub mod ignore;
pub mod picture;
pub mod link;
pub mod message;
pub mod mute;
pub mod order;
pub mod text;
pub mod whitelist;
