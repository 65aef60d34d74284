//! Verified core of the Minecraft utility control center: the casino and
//! bank, the user and record stores, and the parsers of in-game chat.
pub mod text;
pub mod num;
pub mod bank;
pub mod models;
pub mod casino;
pub mod users;
pub mod records;
pub mod chests;
pub mod viewport;
pub mod public;
pub mod faq;
pub mod chat;
pub mod config;
pub mod casino_chat;
pub mod bot_rules;
pub mod access;
pub mod ledger;
pub mod book_writer;
pub mod laws;
pub mod chat_bot;
pub mod pathing;
