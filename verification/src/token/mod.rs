pub mod defs;
pub mod scan;
pub mod lexer;
pub mod rescan;
