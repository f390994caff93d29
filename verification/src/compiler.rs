//! Values and primitive operations of the running program.

pub mod literal;
pub mod nifs;
pub mod value;
