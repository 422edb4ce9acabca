pub mod eval;
pub mod json;
pub mod laws;
pub mod reader;
pub mod roundtrip;
pub mod stdlib;
pub mod text;
