//! Digital signature provisioning and driving.

pub mod bignum;
pub mod crypto;
pub mod ds;
pub mod factory;
pub mod key;
pub mod montgomery;
pub mod params;
pub mod plan;
pub mod plan_laws;
pub mod program;
pub mod program_laws;
pub mod provisioning_laws;
pub mod signature_laws;
pub mod signing;
pub mod signing_laws;
pub mod text;
pub mod text_laws;
pub mod tools;
pub mod tools_laws;
pub mod words;
pub mod words_laws;
