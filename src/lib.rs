//! Context-threading (de)serialization driven by a resolved schema.
//!
//! A caller-owned context travels beside the value through every encode and
//! decode call and never appears in the wire data.

pub mod attrs;
pub mod de;
pub mod laws;
pub mod mode;
pub mod schema;
pub mod seed;
pub mod ser;
pub mod type_decl;
pub mod value;
pub mod wire;
