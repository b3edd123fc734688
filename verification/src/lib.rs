//! Core of a minimal mail client: the line-oriented IMAP and SMTP protocol
//! logic, the `BODYSTRUCTURE` grammar parser that locates the plain-text part
//! of a MIME message, the mailbox and header parsers, and a paginated cache of
//! message headers. Network transport and the terminal front end live outside
//! this crate; everything here is pure logic over strings and integers.

pub mod body;
pub mod cache;
pub mod chars;
pub mod error;
pub mod imap;
pub mod inbox;
pub mod message;
pub mod numbers;
pub mod reader;
pub mod smtp;
pub mod strutil;
