pub mod builder;
pub mod errors;
pub mod order;
pub mod page;
pub mod parsing;
pub mod resolve;
pub mod serve;
pub mod text;
pub mod watch;
