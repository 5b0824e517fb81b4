pub mod buffer;
pub mod parser;
pub mod util;
