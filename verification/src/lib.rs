//! Mails new comics to their readers.

pub mod config;
pub mod date;
pub mod db;
pub mod email;
pub mod html;
pub mod http;
pub mod post;
pub mod run;
pub mod text;
