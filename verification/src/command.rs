pub mod card;
pub mod comment;
pub mod config;
pub mod init;
pub mod link;
