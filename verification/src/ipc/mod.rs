pub mod dispatcher;
pub mod protocol;
pub mod server;
