pub mod dents;
pub mod emit;
pub mod parse;
pub mod text;
