//! Verified core of the OutlookEmail desktop client: provider registry,
//! account import parsing, search parsing, text extraction and export formats.

pub mod clock;
pub mod crypto;
pub mod error;
pub mod export;
pub mod forward;
pub mod groups;
pub mod html;
pub mod imap_fetch;
pub mod import;
pub mod markdown;
pub mod mime;
pub mod models;
pub mod oauth;
pub mod providers;
pub mod schema;
pub mod search;
pub mod storage;
pub mod temp_mail;
pub mod text;
pub mod tree;
pub mod workspace;
