pub mod model;
pub mod xml;
pub mod style_gen;
pub mod writer;
pub mod reader;
