//! Infers a single flat record schema from a sequence of JSON-like values and
//! renders it as a type declaration in one of several target notations.

pub mod api;
pub mod order;
pub mod render;
pub mod schema;
pub mod value;

pub use api::generate;
pub use api::print_rust_struct;
pub use api::print_typescript_interface;
pub use order::KeyOrder;
pub use schema::FieldState;
pub use schema::Schema;
pub use schema::SchemaError;
pub use value::NumberKind;
pub use value::TypeTag;
pub use value::Value;
