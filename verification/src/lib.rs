//! Turns the description of a remote procedure call service into the records
//! from which client bindings are rendered: every procedure name is given a
//! role, every schema type a signature, an encoder and a decoder, and the
//! records are grouped by role and class and put in a fixed order.

pub mod shape;
pub mod text;
pub mod schema;
pub mod output;
pub mod classify;
pub mod mapper;
pub mod order;
pub mod parser;

pub use parser::build_output_structure;
pub use parser::create_output_structure;
pub use parser::generate_for;
