pub mod kmp;
pub mod text;
pub mod candidate;
pub mod scorer;
pub mod keys;
pub mod widgets;
pub mod actions;
pub mod command;
pub mod rpc;
pub mod rank;
pub mod window;
pub mod marked;
pub mod cli;
pub mod walk;
pub mod history;
pub mod navigator;
pub mod json;
pub mod message;
pub mod frame;
pub mod request;
pub mod peer;
pub mod field_json;
pub mod candidate_json;
pub mod finder;
pub mod layout;
