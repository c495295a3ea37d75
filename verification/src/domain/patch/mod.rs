pub mod graph;
pub mod model;
pub mod validator;
