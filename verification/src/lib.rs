//! Ructe compiles HTML templates to Rust code.
pub mod bytes;
pub mod parseresult;
pub mod spacelike;
pub mod expression;
pub mod templateexpression;
pub mod rustcode;
pub mod template;
pub mod templates;
pub mod errors;
pub mod staticfiles;
pub mod ructe;
