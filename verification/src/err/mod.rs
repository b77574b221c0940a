pub mod def;
pub mod lines;
