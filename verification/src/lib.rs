//! Verified core of MimicWX: message decoding, text handling, state machines
//! and the rules behind the HTTP and console interfaces.
pub mod auth;
pub mod bytes;
pub mod cell;
pub mod chat;
pub mod commands;
pub mod config;
pub mod contacts;
pub mod content;
pub mod db;
pub mod delivery;
pub mod editor;
pub mod find;
pub mod flows;
pub mod hunt;
pub mod keys;
pub mod marking;
pub mod messages;
pub mod number;
pub mod outside;
pub mod poll;
pub mod reading;
pub mod reload;
pub mod replies;
pub mod runtime;
pub mod schema;
pub mod table;
pub mod text;
pub mod tree;
pub mod wal;
pub mod wechat;
pub mod xml;
