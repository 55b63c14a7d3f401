pub mod backend;
pub mod frontend;
pub mod songs;
pub mod sync;
pub mod web_api;
