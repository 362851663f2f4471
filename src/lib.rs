pub mod http;
pub mod db;
pub mod store;
pub mod model;
pub mod comment;
pub mod ids;
pub mod reaction;
pub mod user;
pub mod tree;
pub mod actions;
pub mod reply;
