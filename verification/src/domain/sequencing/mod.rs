pub mod pattern;
pub mod transport;
