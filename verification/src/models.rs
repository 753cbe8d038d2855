pub mod blocker;
pub mod board;
pub mod card;
pub mod card_type;
pub mod checklist;
pub mod checklistitem;
pub mod column;
pub mod comment;
pub mod common;
pub mod config;
pub mod lane;
pub mod link;
pub mod space;
pub mod tag;
pub mod user;
