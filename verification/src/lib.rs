pub mod foo;
pub mod parse;
