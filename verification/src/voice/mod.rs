pub mod book;
pub mod encoding;
pub mod grammar;
pub mod lines;
pub mod log;
pub mod order;
pub mod packet;
pub mod pending;
pub mod permissions;
pub mod request;
pub mod server;
pub mod session;
pub mod snapshot;
pub mod sound;
pub mod transfers;
