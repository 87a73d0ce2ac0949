//! Layer-7 protocol identification and MySQL log parsing for a traffic
//! observability agent.
pub mod protocol;
pub mod bytes;
pub mod text;
pub mod mysql;
pub mod parser;
pub mod session;
pub mod flow;
